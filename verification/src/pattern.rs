//! The required message format: the text must contain the letters of
//! `pantsoff`, in order, with arbitrary gaps, case-insensitively.

use vstd::prelude::*;
use crate::text::str_chars;

verus! {

/// Case-insensitive match of one character against a lowercase ASCII
/// target letter.
pub open spec fn ci_eq(c: char, t: char) -> bool {
    c == t || (t as u32 >= 32 && c as u32 == t as u32 - 32)
}

/// The target letter sequence of the required format.
pub open spec fn spec_target() -> Seq<char> {
    seq!['p', 'a', 'n', 't', 's', 'o', 'f', 'f']
}

/// `pat` occurs in `s` as a (possibly non-contiguous) subsequence, each
/// pattern letter compared case-insensitively.
pub open spec fn spec_subseq_match(pat: Seq<char>, s: Seq<char>) -> bool
    decreases s.len(),
{
    if pat.len() == 0 {
        true
    } else if s.len() == 0 {
        false
    } else if ci_eq(s[0], pat[0]) {
        spec_subseq_match(pat.skip(1), s.skip(1)) || spec_subseq_match(pat, s.skip(1))
    } else {
        spec_subseq_match(pat, s.skip(1))
    }
}

/// The message format predicate: the text contains `pantsoff` as a
/// case-insensitive subsequence.
pub open spec fn spec_pattern_match(s: Seq<char>) -> bool {
    spec_subseq_match(spec_target(), s)
}

/// A match survives dropping the head of the pattern.
proof fn lemma_drop_pat_head(pat: Seq<char>, s: Seq<char>)
    requires
        pat.len() > 0,
        spec_subseq_match(pat, s),
    ensures
        spec_subseq_match(pat.skip(1), s),
    decreases s.len(),
{
    if pat.len() == 1 {
        assert(pat.skip(1).len() == 0);
    } else if s.len() == 0 {
        // no match from an empty string: contradiction with the requires
    } else {
        if ci_eq(s[0], pat[0]) && spec_subseq_match(pat.skip(1), s.skip(1)) {
            lemma_extend_text_head(pat.skip(1), s);
        } else {
            lemma_drop_pat_head(pat, s.skip(1));
            lemma_extend_text_head(pat.skip(1), s);
        }
    }
}

/// A match against the tail of the text is a match against the text.
proof fn lemma_extend_text_head(pat: Seq<char>, s: Seq<char>)
    requires
        s.len() > 0,
        spec_subseq_match(pat, s.skip(1)),
    ensures
        spec_subseq_match(pat, s),
{
}

/// Matching the head of the text against the head of the pattern loses
/// nothing: the greedy step is complete.
proof fn lemma_greedy_step(pat: Seq<char>, s: Seq<char>)
    requires
        pat.len() > 0,
        s.len() > 0,
        ci_eq(s[0], pat[0]),
    ensures
        spec_subseq_match(pat, s) == spec_subseq_match(pat.skip(1), s.skip(1)),
{
    if spec_subseq_match(pat, s) && !spec_subseq_match(pat.skip(1), s.skip(1)) {
        assert(spec_subseq_match(pat, s.skip(1)));
        lemma_drop_pat_head(pat, s.skip(1));
    }
}

/// Whether the text satisfies the required fuzzy format.
pub fn pattern_match(text: &str) -> (r: bool)
    ensures
        r == spec_pattern_match(text@),
{
    let cs = str_chars(text);
    let pat: Vec<char> = vec!['p', 'a', 'n', 't', 's', 'o', 'f', 'f'];
    assert(pat@ =~= spec_target());
    let mut i: usize = 0;
    let mut j: usize = 0;
    assert(pat@.skip(0) =~= pat@);
    assert(cs@.skip(0) =~= cs@);
    while i < cs.len() && j < pat.len()
        invariant
            i <= cs.len(),
            j <= pat.len(),
            cs@ == text@,
            pat@ == spec_target(),
            spec_pattern_match(text@) == spec_subseq_match(pat@.skip(j as int), cs@.skip(i as int)),
        decreases cs.len() - i,
    {
        let ghost pj = pat@.skip(j as int);
        let ghost si = cs@.skip(i as int);
        assert(pj[0] == pat@[j as int]);
        assert(si[0] == cs@[i as int]);
        let ci_u: u32 = cs[i] as u32;
        let pj_u: u32 = pat[j] as u32;
        if cs[i] == pat[j] || (pj_u >= 32 && ci_u == pj_u - 32) {
            proof {
                assert(ci_u == cs@[i as int] as u32);
                assert(pj_u == pat@[j as int] as u32);
                assert(ci_eq(cs@[i as int], pat@[j as int]));
                lemma_greedy_step(pj, si);
                assert(pj.skip(1) =~= pat@.skip(j as int + 1));
                assert(si.skip(1) =~= cs@.skip(i as int + 1));
            }
            j = j + 1;
        } else {
            proof {
                assert(!ci_eq(si[0], pj[0]));
                assert(si.skip(1) =~= cs@.skip(i as int + 1));
            }
        }
        i = i + 1;
    }
    if j == pat.len() {
        assert(pat@.skip(j as int).len() == 0);
        true
    } else {
        proof {
            if i == cs.len() {
                assert(cs@.skip(i as int).len() == 0);
                assert(pat@.skip(j as int).len() > 0);
            }
        }
        false
    }
}

} // verus!
