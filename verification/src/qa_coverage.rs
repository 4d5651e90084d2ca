//! Whole-document word counts for meeting report coverage QA.
use vstd::prelude::*;
use crate::report_blocks::ReportBlock;
use crate::text::{words, words_str};

verus! {

/// The words of all blocks, block by block.
pub open spec fn document_words(blocks: Seq<ReportBlock>) -> nat
    decreases blocks.len(),
{
    if blocks.len() == 0 {
        0
    } else {
        document_words(blocks.drop_last()) + words(blocks.last().text@).len()
    }
}

/// The whitespace-separated words of `text`.
pub fn word_count(text: &str) -> (r: usize)
    ensures
        r == words(text@).len(),
{
    let w = words_str(text);
    w.len()
}

/// Visible text word count across all report blocks (h1, h2, p, table).
pub fn count_document_words(blocks: &[ReportBlock]) -> (r: usize)
    requires
        document_words(blocks@) <= usize::MAX,
    ensures
        r == document_words(blocks@),
{
    let mut total: usize = 0;
    let mut i: usize = 0;
    while i < blocks.len()
        invariant
            i <= blocks@.len(),
            total == document_words(blocks@.take(i as int)),
            document_words(blocks@) <= usize::MAX,
        decreases blocks.len() - i,
    {
        proof {
            assert(blocks@.take(i + 1).drop_last() =~= blocks@.take(i as int));
            lemma_document_words_prefix(blocks@, i + 1);
        }
        let n = word_count(blocks[i].text.as_str());
        total = total + n;
        i = i + 1;
    }
    assert(blocks@.take(blocks@.len() as int) =~= blocks@);
    total
}

/// A prefix of the blocks has no more words than all of them.
pub proof fn lemma_document_words_prefix(blocks: Seq<ReportBlock>, n: int)
    requires
        0 <= n <= blocks.len(),
    ensures
        document_words(blocks.take(n)) <= document_words(blocks),
    decreases blocks.len() - n,
{
    if n < blocks.len() {
        lemma_document_words_prefix(blocks, n + 1);
        assert(blocks.take(n + 1).drop_last() =~= blocks.take(n));
    } else {
        assert(blocks.take(n) =~= blocks);
    }
}

} // verus!
