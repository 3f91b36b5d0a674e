//! A whole request file: from its text to the outcome of each of its
//! request blocks.

use crate::error::{Fault, ParseError};
use crate::line::{
    content_lines, filter_lines, is_dropped, lemma_all_dropped, lines_of, split_lines, SourceLine,
};
use crate::parsed::{ParsedRequest, RequestDescriptor};
use crate::request::{outcome_view, RequestBlock};
use crate::segment::{blocks_of, lemma_block_method, lemma_blocks_concat, pending_start, segment};
use vstd::prelude::*;

verus! {

/// The content lines of a document: its lines without the empty ones and
/// the comments, each with its line number.
pub open spec fn source_lines(doc: Seq<char>) -> Seq<SourceLine> {
    content_lines(lines_of(doc))
}

/// The request blocks of a document.
pub open spec fn document_blocks(doc: Seq<char>) -> Seq<RequestBlock> {
    blocks_of(source_lines(doc))
}

/// The function from a block to the outcome of parsing it.
pub open spec fn parsed() -> spec_fn(RequestBlock) -> Result<RequestDescriptor, Fault> {
    |block: RequestBlock| block.parse()
}

/// The outcomes of the content lines of a document: for each of their
/// blocks, in order, the request that it describes or the fault found in it.
pub open spec fn outcomes_of(lines: Seq<SourceLine>) -> Seq<Result<RequestDescriptor, Fault>> {
    blocks_of(lines).map_values(parsed())
}

/// The outcomes of a document.
pub open spec fn document_outcomes(doc: Seq<char>) -> Seq<Result<RequestDescriptor, Fault>> {
    outcomes_of(source_lines(doc))
}

/// The outcomes of parsing, as the contracts speak of them.
pub open spec fn outcome_views(outcomes: Seq<Result<ParsedRequest, ParseError>>) -> Seq<
    Result<RequestDescriptor, Fault>,
> {
    outcomes.map_values(|outcome: Result<ParsedRequest, ParseError>| outcome_view(outcome))
}

/// A document that holds only comments and empty lines has no block, and
/// so no outcome.
pub proof fn lemma_no_content_no_blocks(doc: Seq<char>)
    requires
        forall|i: int| 0 <= i < lines_of(doc).len() ==> is_dropped(#[trigger] lines_of(doc)[i]),
    ensures
        document_blocks(doc) == Seq::<RequestBlock>::empty(),
        document_outcomes(doc) == Seq::<Result<RequestDescriptor, Fault>>::empty(),
{
    lemma_all_dropped(lines_of(doc));
    assert(document_outcomes(doc) =~= Seq::<Result<RequestDescriptor, Fault>>::empty());
}

/// There is one outcome for each block, and it is the outcome of parsing
/// that block: no block has a part in the outcome of another.
pub proof fn lemma_outcome_per_block(lines: Seq<SourceLine>, k: int)
    requires
        0 <= k < blocks_of(lines).len(),
    ensures
        outcomes_of(lines).len() == blocks_of(lines).len(),
        outcomes_of(lines)[k] == blocks_of(lines)[k].parse(),
{
}

/// No block of a document fails for its method: the segmenter tags each
/// block with a keyword that it found.
pub proof fn lemma_method_never_at_fault(lines: Seq<SourceLine>, k: int)
    requires
        0 <= k < blocks_of(lines).len(),
    ensures
        !(outcomes_of(lines)[k] matches Err(Fault::InvalidMethod(_, _))),
{
    lemma_block_method(lines, k);
}

/// A block that fails does not touch what follows it. Where `first` is
/// empty or ends with a line that closes a block, the outcomes of `first`
/// followed by `second` are those of `first` and then those that `second`
/// has on its own, whatever the outcomes of `first` are.
pub proof fn lemma_outcomes_isolated(first: Seq<SourceLine>, second: Seq<SourceLine>)
    requires
        pending_start(first) == first.len(),
    ensures
        outcomes_of(first + second) == outcomes_of(first) + outcomes_of(second),
{
    lemma_blocks_concat(first, second);
    assert(outcomes_of(first + second) =~= outcomes_of(first) + outcomes_of(second));
}

/// Parsing is a function of the document: two results of parsing the same
/// document describe the same outcomes in the same order.
pub proof fn lemma_parse_input_repeatable(
    doc: Seq<char>,
    once: Seq<Result<ParsedRequest, ParseError>>,
    again: Seq<Result<ParsedRequest, ParseError>>,
)
    requires
        outcome_views(once) == document_outcomes(doc),
        outcome_views(again) == document_outcomes(doc),
    ensures
        outcome_views(once) == outcome_views(again),
        once.len() == again.len(),
        forall|k: int| 0 <= k < once.len() ==> outcome_view(once[k]) == outcome_view(again[k]),
{
    assert(outcome_views(once).len() == once.len());
    assert(outcome_views(again).len() == again.len());
    assert forall|k: int| 0 <= k < once.len() implies outcome_view(once[k]) == outcome_view(
        again[k],
    ) by {
        assert(outcome_views(once)[k] == outcome_view(once[k]));
        assert(outcome_views(again)[k] == outcome_view(again[k]));
    }
}

/// Parses a request file: one outcome for each request block, in the order
/// of the blocks. A block that fails does not keep the others from being
/// parsed.
pub fn parse_input(contents: &str) -> (outcomes: Vec<Result<ParsedRequest, ParseError>>)
    ensures
        outcome_views(outcomes@) == document_outcomes(contents@),
        outcomes@.len() == document_blocks(contents@).len(),
        forall|k: int|
            0 <= k < outcomes@.len() ==> outcome_view(#[trigger] outcomes@[k]) == document_blocks(
                contents@,
            )[k].parse(),
{
    let lines = filter_lines(&split_lines(contents));
    let blocks = segment(&lines);
    let ghost all = document_blocks(contents@);
    let mut outcomes: Vec<Result<ParsedRequest, ParseError>> = Vec::new();
    let mut i: usize = 0;
    while i < blocks.len()
        invariant
            i <= blocks.len(),
            all == blocks.deep_view(),
            forall|k: int| 0 <= k < blocks.len() ==> (#[trigger] blocks[k]).lines.len() > 0,
            outcome_views(outcomes@) =~= all.take(i as int).map_values(parsed()),
        decreases blocks.len() - i,
    {
        let outcome = blocks[i].parse();
        let ghost before = outcomes@;
        outcomes.push(outcome);
        proof {
            assert(all[i as int] == blocks[i as int]@);
            assert(outcome_views(outcomes@) =~= outcome_views(before).push(outcome_view(outcome)));
            assert(all.take(i + 1).map_values(parsed()) =~= all.take(i as int).map_values(
                parsed(),
            ).push(parsed()(all[i as int])));
        }
        i += 1;
    }
    assert(all.take(i as int) =~= all);
    assert forall|k: int| 0 <= k < outcomes@.len() implies outcome_view(#[trigger] outcomes@[k])
        == all[k].parse() by {
        assert(outcome_views(outcomes@)[k] == outcome_view(outcomes@[k]));
    }
    outcomes
}

} // verus!
