//! The block segmenter: cuts the content lines of a document into request
//! blocks. A line that begins with a method keyword closes a block.

use crate::line::{Line, SourceLine};
use crate::method::{lemma_named_is_keyword, Method};
use crate::request::{Request, RequestBlock};
use vstd::prelude::*;

verus! {

/// Whether a line closes a block: it begins with a method keyword.
pub open spec fn closes_block(line: SourceLine) -> bool {
    Method::opening(line.text) is Some
}

/// The predicate `closes_block` as a value.
pub open spec fn closing() -> spec_fn(SourceLine) -> bool {
    |line: SourceLine| closes_block(line)
}

/// Where the next block starts once `lines` have been read: after the last
/// line that closes a block, or at the first line where none does.
pub open spec fn pending_start(lines: Seq<SourceLine>) -> nat
    decreases lines.len(),
{
    if lines.len() == 0 {
        0
    } else if closes_block(lines.last()) {
        lines.len()
    } else {
        pending_start(lines.drop_last())
    }
}

/// The blocks of `lines`, in order. Each line that closes a block ends one:
/// the block reaches from the pending start to that line, and is tagged with
/// the keyword found. Lines after the last such line belong to no block.
pub open spec fn blocks_of(lines: Seq<SourceLine>) -> Seq<RequestBlock>
    decreases lines.len(),
{
    if lines.len() == 0 {
        Seq::empty()
    } else {
        let before = lines.drop_last();
        match Method::opening(lines.last().text) {
            Some(method) => blocks_of(before).push(
                RequestBlock {
                    lines: lines.skip(pending_start(before) as int),
                    method: method.keyword(),
                },
            ),
            None => blocks_of(before),
        }
    }
}

/// The pending start lies within the lines read.
pub proof fn lemma_pending_start_bound(lines: Seq<SourceLine>)
    ensures
        pending_start(lines) <= lines.len(),
    decreases lines.len(),
{
    if lines.len() > 0 {
        lemma_pending_start_bound(lines.drop_last());
    }
}

/// Every block ends with the line that closed it and is tagged with the
/// keyword at the start of that line; so no block is empty.
pub proof fn lemma_block_closed(lines: Seq<SourceLine>, k: int)
    requires
        0 <= k < blocks_of(lines).len(),
    ensures
        blocks_of(lines)[k].lines.len() > 0,
        Method::opening(blocks_of(lines)[k].lines.last().text) is Some,
        blocks_of(lines)[k].method == Method::opening(
            blocks_of(lines)[k].lines.last().text,
        )->0.keyword(),
    decreases lines.len(),
{
    let before = lines.drop_last();
    if closes_block(lines.last()) && k == blocks_of(before).len() {
        lemma_pending_start_bound(before);
    } else {
        lemma_block_closed(before, k);
    }
}

/// No line from the pending start on closes a block.
pub proof fn lemma_pending_open(lines: Seq<SourceLine>, j: int)
    requires
        pending_start(lines) <= j < lines.len(),
    ensures
        !closes_block(lines[j]),
    decreases lines.len(),
{
    if !closes_block(lines.last()) && j < lines.len() - 1 {
        lemma_pending_open(lines.drop_last(), j);
    }
}

/// Within a block only the last line closes a block: a block holds the
/// lines of one request and no more.
pub proof fn lemma_block_single(lines: Seq<SourceLine>, k: int, j: int)
    requires
        0 <= k < blocks_of(lines).len(),
        0 <= j < blocks_of(lines)[k].lines.len() - 1,
    ensures
        !closes_block(blocks_of(lines)[k].lines[j]),
    decreases lines.len(),
{
    let before = lines.drop_last();
    if closes_block(lines.last()) && k == blocks_of(before).len() {
        lemma_pending_start_bound(before);
        lemma_pending_open(before, pending_start(before) + j);
    } else {
        lemma_block_single(before, k, j);
    }
}

/// The lines of all the blocks, one block after the other.
pub open spec fn joined(blocks: Seq<RequestBlock>) -> Seq<SourceLine>
    decreases blocks.len(),
{
    if blocks.len() == 0 {
        Seq::empty()
    } else {
        joined(blocks.drop_last()) + blocks.last().lines
    }
}

/// The blocks hold every line up to the last one that closes a block, each
/// once and in the order of the document; the lines after it are in no
/// block.
pub proof fn lemma_blocks_cover(lines: Seq<SourceLine>)
    ensures
        joined(blocks_of(lines)) == lines.take(pending_start(lines) as int),
    decreases lines.len(),
{
    if lines.len() == 0 {
        assert(lines.take(0) =~= Seq::<SourceLine>::empty());
    } else {
        let before = lines.drop_last();
        let start = pending_start(before) as int;
        lemma_blocks_cover(before);
        lemma_pending_start_bound(before);
        if closes_block(lines.last()) {
            assert(blocks_of(lines).drop_last() =~= blocks_of(before));
            assert(before.take(start) + lines.skip(start) =~= lines.take(lines.len() as int));
        } else {
            assert(before.take(start) =~= lines.take(start));
        }
    }
}

/// Lines that follow a closed block start from a pending start of their
/// own.
pub proof fn lemma_pending_start_concat(first: Seq<SourceLine>, second: Seq<SourceLine>)
    requires
        pending_start(first) == first.len(),
    ensures
        pending_start(first + second) == first.len() + pending_start(second),
    decreases second.len(),
{
    if second.len() == 0 {
        assert(first + second =~= first);
    } else {
        assert((first + second).drop_last() =~= first + second.drop_last());
        lemma_pending_start_concat(first, second.drop_last());
    }
}

/// What comes before a closed block does not touch the blocks that follow:
/// where `first` is empty or ends with a line that closes a block, the
/// blocks of `first` followed by `second` are those of `first` and then
/// those of `second`.
pub proof fn lemma_blocks_concat(first: Seq<SourceLine>, second: Seq<SourceLine>)
    requires
        pending_start(first) == first.len(),
    ensures
        blocks_of(first + second) == blocks_of(first) + blocks_of(second),
    decreases second.len(),
{
    if second.len() == 0 {
        assert(first + second =~= first);
        assert(blocks_of(first) + blocks_of(second) =~= blocks_of(first));
    } else {
        let both = first + second;
        let before = second.drop_last();
        assert(both.drop_last() =~= first + before);
        lemma_blocks_concat(first, before);
        lemma_pending_start_concat(first, before);
        lemma_pending_start_bound(before);
        if closes_block(second.last()) {
            let start = pending_start(before) as int;
            assert(both.skip(first.len() + start) =~= second.skip(start));
            assert(blocks_of(both) =~= blocks_of(first) + blocks_of(second));
        }
    }
}

/// Where no line closes a block there is no block.
pub proof fn lemma_no_closing_line(lines: Seq<SourceLine>)
    requires
        forall|i: int| 0 <= i < lines.len() ==> !closes_block(#[trigger] lines[i]),
    ensures
        blocks_of(lines) == Seq::<RequestBlock>::empty(),
    decreases lines.len(),
{
    if lines.len() > 0 {
        let before = lines.drop_last();
        assert forall|i: int| 0 <= i < before.len() implies !closes_block(#[trigger] before[i]) by {
            assert(before[i] == lines[i]);
        }
        lemma_no_closing_line(before);
    }
}

/// Each line that closes a block ends one block: there are as many blocks
/// as such lines.
pub proof fn lemma_blocks_count(lines: Seq<SourceLine>)
    ensures
        blocks_of(lines).len() == lines.filter(closing()).len(),
    decreases lines.len(),
{
    reveal(Seq::filter);
    if lines.len() > 0 {
        lemma_blocks_count(lines.drop_last());
    }
}

/// The segmenter tags every block with a keyword that names a method: the
/// method with whose keyword the last line of the block begins.
pub proof fn lemma_block_method(lines: Seq<SourceLine>, k: int)
    requires
        0 <= k < blocks_of(lines).len(),
    ensures
        Method::named(blocks_of(lines)[k].method) == Method::opening(
            blocks_of(lines)[k].lines.last().text,
        ),
        Method::named(blocks_of(lines)[k].method) is Some,
{
    lemma_block_closed(lines, k);
    let block = blocks_of(lines)[k];
    lemma_named_is_keyword(block.method, Method::opening(block.lines.last().text)->0);
}

/// A copy of the lines from `from` up to, not including, `to`.
fn copy_lines(lines: &Vec<Line>, from: usize, to: usize) -> (span: Vec<Line>)
    requires
        from <= to <= lines.len(),
    ensures
        span.deep_view() == lines.deep_view().subrange(from as int, to as int),
{
    let mut span: Vec<Line> = Vec::new();
    let mut i = from;
    while i < to
        invariant
            from <= i <= to <= lines.len(),
            span.deep_view() =~= lines.deep_view().subrange(from as int, i as int),
        decreases to - i,
    {
        let copy = lines[i].clone();
        assert(copy@ == lines[i as int]@);
        let ghost before = span.deep_view();
        span.push(copy);
        assert(span.deep_view() =~= before.push(copy@));
        i += 1;
    }
    span
}

/// Cuts the content lines of a document into its request blocks.
pub fn segment(lines: &Vec<Line>) -> (blocks: Vec<Request>)
    ensures
        blocks.deep_view() == blocks_of(lines.deep_view()),
        forall|k: int| 0 <= k < blocks.len() ==> (#[trigger] blocks[k]).lines.len() > 0,
{
    let ghost all = lines.deep_view();
    let mut blocks: Vec<Request> = Vec::new();
    let mut start: usize = 0;
    let mut i: usize = 0;
    assert(all.take(0) =~= Seq::<SourceLine>::empty());
    assert(blocks.deep_view() =~= Seq::<RequestBlock>::empty());
    while i < lines.len()
        invariant
            start <= i <= lines.len(),
            all == lines.deep_view(),
            start == pending_start(all.take(i as int)),
            blocks.deep_view() == blocks_of(all.take(i as int)),
        decreases lines.len() - i,
    {
        proof {
            assert(all.take(i + 1).drop_last() =~= all.take(i as int));
            assert(all.take(i + 1).last() == lines[i as int]@);
        }
        match Method::detect(lines[i].text.as_str()) {
            Some(method) => {
                let block = Request::new(copy_lines(lines, start, i + 1), method.as_str());
                assert(all.take(i + 1).skip(start as int) =~= all.subrange(
                    start as int,
                    i + 1,
                ));
                let ghost before = blocks.deep_view();
                blocks.push(block);
                assert(blocks.deep_view() =~= before.push(block@));
                start = i + 1;
            },
            None => {},
        }
        i += 1;
    }
    assert(all.take(i as int) =~= all);
    assert forall|k: int| 0 <= k < blocks.len() implies (#[trigger] blocks[k]).lines.len() > 0 by {
        lemma_block_closed(all, k);
        assert(blocks.deep_view()[k] == blocks[k]@);
    }
    blocks
}

} // verus!
