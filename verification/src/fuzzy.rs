//! Fuzzy matching of book descriptions against a filter typed by the reader.
use vstd::prelude::*;

use crate::text::chars_of;

verus! {

/// Unicode's White_Space characters, those that `char::is_whitespace` accepts.
pub open spec fn spec_is_whitespace(c: char) -> bool {
    let n = c as u32;
    ||| 0x09 <= n <= 0x0d
    ||| n == 0x20
    ||| n == 0x85
    ||| n == 0xa0
    ||| n == 0x1680
    ||| 0x2000 <= n <= 0x200a
    ||| n == 0x2028
    ||| n == 0x2029
    ||| n == 0x202f
    ||| n == 0x205f
    ||| n == 0x3000
}

/// Whether a character is white space in Unicode's sense.
pub fn is_whitespace(c: char) -> (r: bool)
    ensures
        r == spec_is_whitespace(c),
{
    let n = c as u32;
    (0x09 <= n && n <= 0x0d) || n == 0x20 || n == 0x85 || n == 0xa0 || n == 0x1680 || (0x2000
        <= n && n <= 0x200a) || n == 0x2028 || n == 0x2029 || n == 0x202f || n == 0x205f || n
        == 0x3000
}

/// The words of a text: its longest runs of characters that are not white space,
/// in order.
pub open spec fn words(s: Seq<char>) -> Seq<Seq<char>>
    decreases s.len(),
{
    if s.len() == 0 {
        Seq::empty()
    } else {
        let prev = words(s.drop_last());
        if spec_is_whitespace(s.last()) {
            prev
        } else if s.len() >= 2 && !spec_is_whitespace(s[s.len() - 2]) {
            prev.update(prev.len() - 1, prev.last().push(s.last()))
        } else {
            prev.push(seq![s.last()])
        }
    }
}

/// Splits a text into its words.
pub fn split_words(cs: &Vec<char>) -> (r: Vec<Vec<char>>)
    ensures
        r@.map_values(|w: Vec<char>| w@) == words(cs@),
{
    let mut done: Vec<Vec<char>> = Vec::new();
    let mut current: Vec<char> = Vec::new();
    let mut in_word = false;
    let mut i: usize = 0;
    while i < cs.len()
        invariant
            i <= cs@.len(),
            in_word == (i > 0 && !spec_is_whitespace(cs@[i - 1])),
            in_word ==> done@.map_values(|w: Vec<char>| w@).push(current@) == words(
                cs@.take(i as int),
            ),
            !in_word ==> done@.map_values(|w: Vec<char>| w@) == words(cs@.take(i as int)),
        decreases cs@.len() - i,
    {
        let c = cs[i];
        let ghost prefix = cs@.take(i + 1);
        assert(prefix.drop_last() =~= cs@.take(i as int));
        assert(prefix.last() == c);
        if is_whitespace(c) {
            if in_word {
                let w = current;
                proof {
                    assert(done@.push(w).map_values(|w: Vec<char>| w@) =~= done@.map_values(
                        |w: Vec<char>| w@,
                    ).push(w@));
                }
                done.push(w);
                current = Vec::new();
            }
            in_word = false;
        } else {
            if in_word {
                let ghost old_current = current@;
                assert(prefix[prefix.len() - 2] == cs@[i - 1]);
                current.push(c);
                assert(done@.map_values(|w: Vec<char>| w@).push(current@) =~= done@.map_values(
                    |w: Vec<char>| w@,
                ).push(old_current).update(done@.len() as int, old_current.push(c)));
            } else {
                proof {
                    if i > 0 {
                        assert(prefix[prefix.len() - 2] == cs@[i - 1]);
                    }
                }
                current = Vec::new();
                current.push(c);
                assert(current@ =~= seq![c]);
            }
            in_word = true;
        }
        i = i + 1;
    }
    assert(cs@.take(cs@.len() as int) =~= cs@);
    if in_word {
        let w = current;
        proof {
            assert(done@.push(w).map_values(|w: Vec<char>| w@) =~= done@.map_values(
                |w: Vec<char>| w@,
            ).push(w@));
        }
        done.push(w);
    }
    done
}

/// `f` can be read off `c` by picking characters of `c` from left to right,
/// each time taking the first that matches the next character of `f`.
pub open spec fn is_subsequence(f: Seq<char>, c: Seq<char>) -> bool
    decreases c.len(),
{
    if f.len() == 0 {
        true
    } else if c.len() == 0 {
        false
    } else if c[0] == f[0] {
        is_subsequence(f.drop_first(), c.drop_first())
    } else {
        is_subsequence(f, c.drop_first())
    }
}

/// Positions `idx` in `c` at which the characters of `f` occur, in the same
/// order, not necessarily next to each other.
pub open spec fn is_order_witness(f: Seq<char>, c: Seq<char>, idx: Seq<int>) -> bool {
    &&& idx.len() == f.len()
    &&& forall|k: int| 0 <= k < idx.len() ==> 0 <= #[trigger] idx[k] < c.len() && c[idx[k]] == f[k]
    &&& forall|k: int, l: int| 0 <= k < l < idx.len() ==> #[trigger] idx[k] < #[trigger] idx[l]
}

/// `c` holds all the characters of `f`, in the same order, not necessarily next
/// to each other.
pub open spec fn holds_in_order(f: Seq<char>, c: Seq<char>) -> bool {
    exists|idx: Seq<int>| is_order_witness(f, c, idx)
}

proof fn lemma_subsequence_gives_witness(f: Seq<char>, c: Seq<char>)
    requires
        is_subsequence(f, c),
    ensures
        holds_in_order(f, c),
    decreases c.len(),
{
    if f.len() == 0 {
        assert(is_order_witness(f, c, Seq::empty()));
    } else if c[0] == f[0] {
        lemma_subsequence_gives_witness(f.drop_first(), c.drop_first());
        let idx0 = choose|idx: Seq<int>| is_order_witness(f.drop_first(), c.drop_first(), idx);
        let idx = seq![0int] + idx0.map_values(|i: int| i + 1);
        assert forall|k: int| 0 <= k < idx.len() implies 0 <= #[trigger] idx[k] < c.len()
            && c[idx[k]] == f[k] by {
            if k > 0 {
                assert(idx[k] == idx0[k - 1] + 1);
            }
        }
        assert forall|k: int, l: int| 0 <= k < l < idx.len() implies #[trigger] idx[k]
            < #[trigger] idx[l] by {
            if k > 0 {
                assert(idx0[k - 1] < idx0[l - 1]);
            } else {
                assert(idx[l] == idx0[l - 1] + 1);
                assert(0 <= idx0[l - 1]);
            }
        }
        assert(is_order_witness(f, c, idx));
    } else {
        lemma_subsequence_gives_witness(f, c.drop_first());
        let idx0 = choose|idx: Seq<int>| is_order_witness(f, c.drop_first(), idx);
        let idx = idx0.map_values(|i: int| i + 1);
        assert forall|k: int, l: int| 0 <= k < l < idx.len() implies #[trigger] idx[k]
            < #[trigger] idx[l] by {
            assert(idx0[k] < idx0[l]);
        }
        assert forall|k: int| 0 <= k < idx.len() implies 0 <= #[trigger] idx[k] < c.len()
            && c[idx[k]] == f[k] by {
            assert(idx[k] == idx0[k] + 1);
            assert(c.drop_first()[idx0[k]] == c[idx0[k] + 1]);
        }
        assert(is_order_witness(f, c, idx));
    }
}

proof fn lemma_witness_gives_subsequence(f: Seq<char>, c: Seq<char>, idx: Seq<int>)
    requires
        is_order_witness(f, c, idx),
    ensures
        is_subsequence(f, c),
    decreases c.len(),
{
    if f.len() == 0 {
    } else {
        assert(0 <= idx[0] < c.len());
        if c[0] == f[0] {
            let idx1 = idx.drop_first().map_values(|i: int| i - 1);
            assert forall|k: int| 0 <= k < idx1.len() implies 0 <= #[trigger] idx1[k]
                < c.drop_first().len() && c.drop_first()[idx1[k]] == f.drop_first()[k] by {
                assert(idx[0] < idx[k + 1]);
                assert(idx1[k] == idx[k + 1] - 1);
            }
            assert forall|k: int, l: int| 0 <= k < l < idx1.len() implies #[trigger] idx1[k]
                < #[trigger] idx1[l] by {
                assert(idx[k + 1] < idx[l + 1]);
            }
            lemma_witness_gives_subsequence(f.drop_first(), c.drop_first(), idx1);
        } else {
            assert(idx[0] != 0);
            let idx1 = idx.map_values(|i: int| i - 1);
            assert forall|k: int| 0 <= k < idx1.len() implies 0 <= #[trigger] idx1[k]
                < c.drop_first().len() && c.drop_first()[idx1[k]] == f[k] by {
                if k > 0 {
                    assert(idx[0] < idx[k]);
                }
                assert(idx1[k] == idx[k] - 1);
            }
            assert forall|k: int, l: int| 0 <= k < l < idx1.len() implies #[trigger] idx1[k]
                < #[trigger] idx1[l] by {
                assert(idx[k] < idx[l]);
            }
            lemma_witness_gives_subsequence(f, c.drop_first(), idx1);
        }
    }
}

/// The matching of one filter word is exactly "`candidate` holds all the
/// characters of `filter`, in the same order, not necessarily next to each other".
pub proof fn lemma_word_match_is_ordered_containment(f: Seq<char>, c: Seq<char>)
    ensures
        is_subsequence(f, c) <==> holds_in_order(f, c),
{
    if is_subsequence(f, c) {
        lemma_subsequence_gives_witness(f, c);
    }
    if holds_in_order(f, c) {
        let idx = choose|idx: Seq<int>| is_order_witness(f, c, idx);
        lemma_witness_gives_subsequence(f, c, idx);
    }
}

fn subsequence_of(f: &Vec<char>, c: &Vec<char>) -> (r: bool)
    ensures
        r == is_subsequence(f@, c@),
{
    let mut q: usize = 0;
    let mut k: usize = 0;
    assert(f@.skip(0) =~= f@);
    assert(c@.skip(0) =~= c@);
    while q < f.len()
        invariant
            q <= f@.len(),
            k <= c@.len(),
            is_subsequence(f@, c@) == is_subsequence(f@.skip(q as int), c@.skip(k as int)),
        decreases c@.len() - k, f@.len() - q,
    {
        if k == c.len() {
            assert(c@.skip(k as int).len() == 0);
            return false;
        }
        assert(f@.skip(q as int)[0] == f@[q as int]);
        assert(c@.skip(k as int)[0] == c@[k as int]);
        assert(f@.skip(q as int).drop_first() =~= f@.skip(q + 1));
        assert(c@.skip(k as int).drop_first() =~= c@.skip(k + 1));
        if c[k] == f[q] {
            q = q + 1;
        }
        k = k + 1;
    }
    true
}

/// Whether `candidate` holds all the characters of `filter`, in the same order,
/// not necessarily next to each other.
pub fn fuzzy_match_word(candidate: &str, filter: &str) -> (r: bool)
    ensures
        r == is_subsequence(filter@, candidate@),
{
    let c = chars_of(candidate);
    let f = chars_of(filter);
    subsequence_of(&f, &c)
}

/// The word `w` matches, in the sense of `is_subsequence`, one of `ws`.
pub open spec fn matches_some_word(w: Seq<char>, ws: Seq<Seq<char>>) -> bool {
    exists|i: int| 0 <= i < ws.len() && is_subsequence(w, #[trigger] ws[i])
}

/// Every word of the filter matches some word of the candidate.
pub open spec fn spec_fuzzy_match(candidate: Seq<char>, filter: Seq<char>) -> bool {
    forall|j: int|
        0 <= j < words(filter).len() ==> matches_some_word(
            #[trigger] words(filter)[j],
            words(candidate),
        )
}

/// Whether every word of `filter` matches, in the sense of `fuzzy_match_word`,
/// some word of `candidate`.
pub fn fuzzy_match(candidate: &str, filter: &str) -> (r: bool)
    ensures
        r == spec_fuzzy_match(candidate@, filter@),
{
    let cw = split_words(&chars_of(candidate));
    let fw = split_words(&chars_of(filter));
    let ghost cws = words(candidate@);
    let ghost fws = words(filter@);
    assert(cws.len() == cw@.len());
    assert(fws.len() == fw@.len());
    let mut j: usize = 0;
    while j < fw.len()
        invariant
            j <= fw@.len(),
            fws == words(filter@),
            cws == words(candidate@),
            fws == fw@.map_values(|w: Vec<char>| w@),
            cws == cw@.map_values(|w: Vec<char>| w@),
            forall|jj: int| 0 <= jj < j ==> matches_some_word(#[trigger] fws[jj], cws),
        decreases fw@.len() - j,
    {
        let mut found = false;
        let mut i: usize = 0;
        while i < cw.len()
            invariant
                i <= cw@.len(),
                j < fw@.len(),
                fws == fw@.map_values(|w: Vec<char>| w@),
                cws == cw@.map_values(|w: Vec<char>| w@),
                found ==> matches_some_word(fws[j as int], cws),
                !found ==> forall|ii: int|
                    0 <= ii < i ==> !is_subsequence(fws[j as int], #[trigger] cws[ii]),
            decreases cw@.len() - i,
        {
            if !found {
                if subsequence_of(&fw[j], &cw[i]) {
                    found = true;
                    assert(is_subsequence(fws[j as int], cws[i as int]));
                }
            }
            i = i + 1;
        }
        if !found {
            assert(!matches_some_word(fws[j as int], cws));
            return false;
        }
        j = j + 1;
    }
    true
}

} // verus!
