//! The mathematical meaning of a pattern.
use vstd::prelude::*;

verus! {

/// What `char::to_lowercase` yields for `c`, collected into a sequence.
pub uninterp spec fn lower_of(c: char) -> Seq<char>;

/// One pattern symbol that is not the multi-character wildcard, against one
/// input character: the single-character wildcard takes any character; any
/// other symbol takes itself, and, when case is ignored, every character with
/// the same lowercase form.
pub open spec fn char_matches(sym: char, c: char, single: char, ignore_case: bool) -> bool {
    sym == single || sym == c || (ignore_case && lower_of(sym) == lower_of(c))
}

/// `pat` matches the whole of `text`: `multi` stands for any run of characters
/// (the empty run included), every other symbol for exactly one character as
/// `char_matches` says.
pub open spec fn wild_match(
    pat: Seq<char>,
    text: Seq<char>,
    multi: char,
    single: char,
    ignore_case: bool,
) -> bool
    decreases pat.len() + text.len(),
{
    if pat.len() == 0 {
        text.len() == 0
    } else if pat[0] == multi {
        wild_match(pat.drop_first(), text, multi, single, ignore_case) || (text.len() > 0
            && wild_match(pat, text.drop_first(), multi, single, ignore_case))
    } else {
        text.len() > 0 && char_matches(pat[0], text[0], single, ignore_case) && wild_match(
            pat.drop_first(),
            text.drop_first(),
            multi,
            single,
            ignore_case,
        )
    }
}

/// `pat` with every run of consecutive `multi` symbols shortened to one.
pub open spec fn collapse(pat: Seq<char>, multi: char) -> Seq<char>
    decreases pat.len(),
{
    if pat.len() == 0 {
        pat
    } else {
        let front = collapse(pat.drop_last(), multi);
        if pat.last() == multi && pat.len() >= 2 && pat[pat.len() - 2] == multi {
            front
        } else {
            front.push(pat.last())
        }
    }
}

/// No two consecutive symbols of `pat` are both `multi`.
pub open spec fn is_collapsed(pat: Seq<char>, multi: char) -> bool {
    forall|k: int| 0 <= k < pat.len() - 1 ==> !(#[trigger] pat[k] == multi && pat[k + 1] == multi)
}

/// The suffix of `pat` from symbol `j` matches the suffix of `text` from
/// character `i`.
pub open spec fn match_from(
    pat: Seq<char>,
    text: Seq<char>,
    multi: char,
    single: char,
    ignore_case: bool,
    j: int,
    i: int,
) -> bool {
    wild_match(pat.skip(j), text.skip(i), multi, single, ignore_case)
}

/// One step of `wild_match`, stated on suffix positions.
pub proof fn lemma_unfold(
    pat: Seq<char>,
    text: Seq<char>,
    multi: char,
    single: char,
    ignore_case: bool,
    j: int,
    i: int,
)
    requires
        0 <= j <= pat.len(),
        0 <= i <= text.len(),
    ensures
        match_from(pat, text, multi, single, ignore_case, j, i) == if j == pat.len() {
            i == text.len()
        } else if pat[j] == multi {
            match_from(pat, text, multi, single, ignore_case, j + 1, i) || (i < text.len()
                && match_from(pat, text, multi, single, ignore_case, j, i + 1))
        } else {
            i < text.len() && char_matches(pat[j], text[i], single, ignore_case) && match_from(
                pat,
                text,
                multi,
                single,
                ignore_case,
                j + 1,
                i + 1,
            )
        },
{
    let p = pat.skip(j);
    let t = text.skip(i);
    if j < pat.len() {
        assert(p.drop_first() =~= pat.skip(j + 1));
    }
    if i < text.len() {
        assert(t.drop_first() =~= text.skip(i + 1));
    }
}

/// A stretch of `len` symbols from `a` that holds no `multi` consumes exactly
/// `len` characters: any match from `(a, k)` passes through
/// `(a + len, k + len)`, and where the stretch takes the characters from `k`
/// one by one, a match from `(a + len, k + len)` extends back to `(a, k)`.
pub proof fn lemma_fixed_stretch(
    pat: Seq<char>,
    text: Seq<char>,
    multi: char,
    single: char,
    ignore_case: bool,
    a: int,
    k: int,
    len: int,
)
    requires
        0 <= a,
        0 <= len,
        a + len <= pat.len(),
        0 <= k <= text.len(),
        forall|t: int| a <= t < a + len ==> pat[t] != multi,
    ensures
        match_from(pat, text, multi, single, ignore_case, a, k) ==> k + len <= text.len()
            && match_from(pat, text, multi, single, ignore_case, a + len, k + len),
        k + len <= text.len() && (forall|t: int|
            0 <= t < len ==> char_matches(pat[a + t], #[trigger] text[k + t], single, ignore_case))
            && match_from(pat, text, multi, single, ignore_case, a + len, k + len)
            ==> match_from(pat, text, multi, single, ignore_case, a, k),
    decreases len,
{
    if len > 0 {
        lemma_unfold(pat, text, multi, single, ignore_case, a, k);
        if k < text.len() {
            lemma_fixed_stretch(pat, text, multi, single, ignore_case, a + 1, k + 1, len - 1);
            if k + len <= text.len() && (forall|t: int|
                0 <= t < len ==> char_matches(pat[a + t], #[trigger] text[k + t], single, ignore_case)) {
                assert(char_matches(pat[a + 0], text[k + 0], single, ignore_case));
                assert forall|t: int| 0 <= t < len - 1 implies char_matches(
                    pat[a + 1 + t],
                    #[trigger] text[k + 1 + t],
                    single,
                    ignore_case,
                ) by {
                    assert(char_matches(pat[a + (t + 1)], text[k + (t + 1)], single, ignore_case));
                }
            }
        }
    }
}

/// A multi-character wildcard at `j` that matches from a later input
/// position also matches from an earlier one: it absorbs the difference.
pub proof fn lemma_multi_absorbs(
    pat: Seq<char>,
    text: Seq<char>,
    multi: char,
    single: char,
    ignore_case: bool,
    j: int,
    i: int,
    later: int,
)
    requires
        0 <= j < pat.len(),
        pat[j] == multi,
        0 <= i <= later <= text.len(),
        match_from(pat, text, multi, single, ignore_case, j, later),
    ensures
        match_from(pat, text, multi, single, ignore_case, j, i),
    decreases later - i,
{
    if i < later {
        lemma_multi_absorbs(pat, text, multi, single, ignore_case, j, i + 1, later);
        lemma_unfold(pat, text, multi, single, ignore_case, j, i);
    }
}

/// A match from a multi-character wildcard at `j` resumes after it at some
/// input position no earlier than `i`.
pub proof fn lemma_multi_resumes(
    pat: Seq<char>,
    text: Seq<char>,
    multi: char,
    single: char,
    ignore_case: bool,
    j: int,
    i: int,
)
    requires
        0 <= j < pat.len(),
        pat[j] == multi,
        0 <= i <= text.len(),
        match_from(pat, text, multi, single, ignore_case, j, i),
    ensures
        exists|k: int|
            i <= k <= text.len() && #[trigger] match_from(
                pat,
                text,
                multi,
                single,
                ignore_case,
                j + 1,
                k,
            ),
    decreases text.len() - i,
{
    lemma_unfold(pat, text, multi, single, ignore_case, j, i);
    if !match_from(pat, text, multi, single, ignore_case, j + 1, i) {
        lemma_multi_resumes(pat, text, multi, single, ignore_case, j, i + 1);
    }
}

/// A multi-character wildcard at `st` followed by a stretch without one up to
/// `j`, whose symbols take the characters from `mark` to `i` one by one: when
/// the input is used up at `i`, or another multi-character wildcard stands at
/// `j`, the match from `(st, mark)` is decided by the match from `(j, i)`.
pub proof fn lemma_resume_after_stretch(
    pat: Seq<char>,
    text: Seq<char>,
    multi: char,
    single: char,
    ignore_case: bool,
    st: int,
    mark: int,
    j: int,
    i: int,
)
    requires
        0 <= st < j <= pat.len(),
        pat[st] == multi,
        0 <= mark <= i <= text.len(),
        i - mark == j - st - 1,
        forall|q: int| st < q < j ==> pat[q] != multi,
        forall|q: int|
            0 <= q < j - st - 1 ==> char_matches(pat[st + 1 + q], #[trigger] text[mark + q], single, ignore_case),
        i == text.len() || (j < pat.len() && pat[j] == multi),
    ensures
        match_from(pat, text, multi, single, ignore_case, st, mark) == match_from(
            pat,
            text,
            multi,
            single,
            ignore_case,
            j,
            i,
        ),
{
    let len = j - st - 1;
    lemma_fixed_stretch(pat, text, multi, single, ignore_case, st + 1, mark, len);
    lemma_unfold(pat, text, multi, single, ignore_case, st, mark);
    if match_from(pat, text, multi, single, ignore_case, st, mark) {
        lemma_multi_resumes(pat, text, multi, single, ignore_case, st, mark);
        let k = choose|k: int|
            mark <= k <= text.len() && #[trigger] match_from(
                pat,
                text,
                multi,
                single,
                ignore_case,
                st + 1,
                k,
            );
        lemma_fixed_stretch(pat, text, multi, single, ignore_case, st + 1, k, len);
        if i < text.len() {
            lemma_multi_absorbs(pat, text, multi, single, ignore_case, j, i, k + len);
        }
    }
}

/// The shortened pattern has no repeated `multi`, is empty only when `pat`
/// is, and ends with the symbol that `pat` ends with.
pub proof fn lemma_collapse_shape(pat: Seq<char>, multi: char)
    ensures
        is_collapsed(collapse(pat, multi), multi),
        collapse(pat, multi).len() == 0 <==> pat.len() == 0,
        pat.len() > 0 ==> collapse(pat, multi).last() == pat.last(),
    decreases pat.len(),
{
    if pat.len() > 0 {
        let front = pat.drop_last();
        lemma_collapse_shape(front, multi);
        let c = collapse(front, multi);
        if pat.len() >= 2 {
            assert(front.last() == pat[pat.len() - 2]);
        }
        let r = collapse(pat, multi);
        assert forall|k: int| 0 <= k < r.len() - 1 implies !(#[trigger] r[k] == multi && r[k + 1]
            == multi) by {
            if r.len() > c.len() && k == r.len() - 2 {
                assert(r[k] == c.last());
            } else {
                assert(r[k] == c[k] && r[k + 1] == c[k + 1]);
            }
        }
    }
}

} // verus!
