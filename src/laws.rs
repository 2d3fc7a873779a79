//! Properties of matching that follow from the definitions.
use vstd::prelude::*;
use crate::pattern::WildMatchPattern;
use crate::semantics::{char_matches, collapse, is_collapsed, lemma_collapse_shape, wild_match};

verus! {

/// No symbol of `pat` is `multi`.
pub open spec fn has_no_multi(pat: Seq<char>, multi: char) -> bool {
    forall|k: int| 0 <= k < pat.len() ==> #[trigger] pat[k] != multi
}

/// Matching is a function of the compiled pattern and the input alone: asking
/// twice about the same input gives the same answer.
pub proof fn law_matching_is_deterministic(p: WildMatchPattern, a: Seq<char>, b: Seq<char>)
    requires
        a == b,
    ensures
        p.matches_spec(a) == p.matches_spec(b),
{
}

/// A pattern that is already shortened is left as it is.
pub proof fn lemma_collapse_of_collapsed(pat: Seq<char>, multi: char)
    requires
        is_collapsed(pat, multi),
    ensures
        collapse(pat, multi) == pat,
    decreases pat.len(),
{
    if pat.len() > 0 {
        let front = pat.drop_last();
        assert forall|k: int| 0 <= k < front.len() - 1 implies !(#[trigger] front[k] == multi
            && front[k + 1] == multi) by {
            assert(front[k] == pat[k] && front[k + 1] == pat[k + 1]);
        }
        lemma_collapse_of_collapsed(front, multi);
        if pat.len() >= 2 {
            assert(!(pat[pat.len() - 2] == multi && pat[pat.len() - 1] == multi));
        }
        assert(front.push(pat.last()) =~= pat);
    }
}

/// Compiling is idempotent: shortening runs of multi-character wildcards a
/// second time changes nothing.
pub proof fn law_collapse_is_idempotent(pat: Seq<char>, multi: char)
    ensures
        collapse(collapse(pat, multi), multi) == collapse(pat, multi),
{
    lemma_collapse_shape(pat, multi);
    lemma_collapse_of_collapsed(collapse(pat, multi), multi);
}

/// A pattern without multi-character wildcards compiles to itself.
pub proof fn lemma_collapse_without_multi(pat: Seq<char>, multi: char)
    requires
        has_no_multi(pat, multi),
    ensures
        collapse(pat, multi) == pat,
{
    assert forall|k: int| 0 <= k < pat.len() - 1 implies !(#[trigger] pat[k] == multi && pat[k + 1]
        == multi) by {
        assert(pat[k] != multi);
    }
    lemma_collapse_of_collapsed(pat, multi);
}

/// A multi-character wildcard written twice in a row means the same as
/// written once.
proof fn lemma_double_multi(
    a: Seq<char>,
    b: Seq<char>,
    text: Seq<char>,
    multi: char,
    single: char,
    ignore_case: bool,
)
    ensures
        wild_match(a + seq![multi, multi] + b, text, multi, single, ignore_case) == wild_match(
            a + seq![multi] + b,
            text,
            multi,
            single,
            ignore_case,
        ),
    decreases a.len() + text.len(),
{
    let long = a + seq![multi, multi] + b;
    let short = a + seq![multi] + b;
    if a.len() == 0 {
        assert(long.drop_first() =~= short);
        assert(long[0] == multi && short[0] == multi);
        if text.len() > 0 {
            lemma_double_multi(a, b, text.drop_first(), multi, single, ignore_case);
        }
    } else {
        let a1 = a.drop_first();
        assert(long.drop_first() =~= a1 + seq![multi, multi] + b);
        assert(short.drop_first() =~= a1 + seq![multi] + b);
        assert(long[0] == a[0] && short[0] == a[0]);
        lemma_double_multi(a1, b, text, multi, single, ignore_case);
        if text.len() > 0 {
            lemma_double_multi(a1, b, text.drop_first(), multi, single, ignore_case);
            lemma_double_multi(a, b, text.drop_first(), multi, single, ignore_case);
        }
    }
}

/// Shortening runs of multi-character wildcards in a prefix keeps the
/// meaning of whatever follows it.
proof fn lemma_collapse_keeps_meaning(
    pat: Seq<char>,
    rest: Seq<char>,
    text: Seq<char>,
    multi: char,
    single: char,
    ignore_case: bool,
)
    ensures
        wild_match(collapse(pat, multi) + rest, text, multi, single, ignore_case) == wild_match(
            pat + rest,
            text,
            multi,
            single,
            ignore_case,
        ),
    decreases pat.len(),
{
    if pat.len() == 0 {
        assert(collapse(pat, multi) + rest =~= pat + rest);
    } else {
        let front = pat.drop_last();
        let c = pat.last();
        if c == multi && pat.len() >= 2 && pat[pat.len() - 2] == multi {
            lemma_collapse_keeps_meaning(front, rest, text, multi, single, ignore_case);
            let before = front.drop_last();
            assert(pat + rest =~= before + seq![multi, multi] + rest);
            assert(front + rest =~= before + seq![multi] + rest);
            lemma_double_multi(before, rest, text, multi, single, ignore_case);
        } else {
            let tail = seq![c] + rest;
            lemma_collapse_keeps_meaning(front, tail, text, multi, single, ignore_case);
            assert(collapse(pat, multi) + rest =~= collapse(front, multi) + tail);
            assert(pat + rest =~= front + tail);
        }
    }
}

/// Compiling keeps the meaning: the compiled pattern matches exactly the
/// strings that the pattern as written matches.
pub proof fn law_compiling_keeps_meaning(
    pat: Seq<char>,
    text: Seq<char>,
    multi: char,
    single: char,
    ignore_case: bool,
)
    ensures
        wild_match(collapse(pat, multi), text, multi, single, ignore_case) == wild_match(
            pat,
            text,
            multi,
            single,
            ignore_case,
        ),
{
    let empty = Seq::<char>::empty();
    lemma_collapse_keeps_meaning(pat, empty, text, multi, single, ignore_case);
    assert(collapse(pat, multi) + empty =~= collapse(pat, multi));
    assert(pat + empty =~= pat);
}

/// The empty pattern compiles to the empty pattern, which matches the empty
/// string and nothing else.
pub proof fn law_empty_pattern(text: Seq<char>, multi: char, single: char, ignore_case: bool)
    ensures
        collapse(Seq::<char>::empty(), multi) == Seq::<char>::empty(),
        wild_match(collapse(Seq::<char>::empty(), multi), text, multi, single, ignore_case) <==> text.len()
            == 0,
{
}

/// A lone multi-character wildcard matches every string, the empty one
/// included.
pub proof fn law_lone_multi_matches_everything(
    text: Seq<char>,
    multi: char,
    single: char,
    ignore_case: bool,
)
    ensures
        collapse(seq![multi], multi) == seq![multi],
        wild_match(collapse(seq![multi], multi), text, multi, single, ignore_case),
    decreases text.len(),
{
    assert(seq![multi].drop_last() =~= Seq::<char>::empty());
    assert(collapse(Seq::<char>::empty(), multi) == Seq::<char>::empty());
    assert(Seq::<char>::empty().push(multi) =~= seq![multi]);
    lemma_lone_multi(text, multi, single, ignore_case);
}

proof fn lemma_lone_multi(text: Seq<char>, multi: char, single: char, ignore_case: bool)
    ensures
        wild_match(seq![multi], text, multi, single, ignore_case),
    decreases text.len(),
{
    assert(seq![multi].drop_first() =~= Seq::<char>::empty());
    assert(wild_match(Seq::<char>::empty(), text, multi, single, ignore_case) == (text.len() == 0));
    if text.len() > 0 {
        lemma_lone_multi(text.drop_first(), multi, single, ignore_case);
    }
}

/// A pattern without multi-character wildcards matches only strings as long
/// as itself.
pub proof fn law_fixed_pattern_fixes_length(
    pat: Seq<char>,
    text: Seq<char>,
    multi: char,
    single: char,
    ignore_case: bool,
)
    requires
        has_no_multi(pat, multi),
        wild_match(pat, text, multi, single, ignore_case),
    ensures
        text.len() == pat.len(),
    decreases pat.len(),
{
    if pat.len() > 0 {
        assert(pat[0] != multi);
        assert(has_no_multi(pat.drop_first(), multi)) by {
            assert forall|k: int| 0 <= k < pat.drop_first().len() implies #[trigger] pat.drop_first()[k]
                != multi by {
                assert(pat[k + 1] != multi);
            }
        }
        law_fixed_pattern_fixes_length(pat.drop_first(), text.drop_first(), multi, single, ignore_case);
    }
}

/// A pattern made of `n` single-character wildcards and nothing else compiles
/// to itself and matches exactly the strings of length `n`.
pub proof fn law_single_wildcards_match_length(
    pat: Seq<char>,
    text: Seq<char>,
    multi: char,
    single: char,
    ignore_case: bool,
)
    requires
        multi != single,
        forall|k: int| 0 <= k < pat.len() ==> #[trigger] pat[k] == single,
    ensures
        collapse(pat, multi) == pat,
        wild_match(collapse(pat, multi), text, multi, single, ignore_case) <==> text.len() == pat.len(),
    decreases pat.len(),
{
    lemma_collapse_without_multi(pat, multi);
    if pat.len() > 0 && text.len() > 0 {
        assert(pat[0] == single);
        let rest = pat.drop_first();
        assert forall|k: int| 0 <= k < rest.len() implies #[trigger] rest[k] == single by {
            assert(pat[k + 1] == single);
        }
        law_single_wildcards_match_length(rest, text.drop_first(), multi, single, ignore_case);
        lemma_collapse_without_multi(rest, multi);
    }
}

/// Anchoring: a pattern without multi-character wildcards that matches a
/// string matches no strict superstring of it.
pub proof fn law_fixed_pattern_is_anchored(
    pat: Seq<char>,
    inner: Seq<char>,
    before: Seq<char>,
    after: Seq<char>,
    multi: char,
    single: char,
    ignore_case: bool,
)
    requires
        has_no_multi(pat, multi),
        wild_match(pat, inner, multi, single, ignore_case),
        before.len() + after.len() > 0,
    ensures
        !wild_match(pat, before + inner + after, multi, single, ignore_case),
{
    law_fixed_pattern_fixes_length(pat, inner, multi, single, ignore_case);
    if wild_match(pat, before + inner + after, multi, single, ignore_case) {
        law_fixed_pattern_fixes_length(pat, before + inner + after, multi, single, ignore_case);
    }
}

/// Anchoring at the start: a pattern that does not begin with a
/// multi-character wildcard only matches strings whose first character its
/// first symbol takes.
pub proof fn law_anchored_at_start(
    pat: Seq<char>,
    text: Seq<char>,
    multi: char,
    single: char,
    ignore_case: bool,
)
    requires
        pat.len() > 0,
        pat[0] != multi,
        wild_match(pat, text, multi, single, ignore_case),
    ensures
        text.len() > 0,
        char_matches(pat[0], text[0], single, ignore_case),
{
}

/// Anchoring at the end: a pattern that does not end with a multi-character
/// wildcard only matches strings whose last character its last symbol takes.
pub proof fn law_anchored_at_end(
    pat: Seq<char>,
    text: Seq<char>,
    multi: char,
    single: char,
    ignore_case: bool,
)
    requires
        pat.len() > 0,
        pat.last() != multi,
        wild_match(pat, text, multi, single, ignore_case),
    ensures
        text.len() > 0,
        char_matches(pat.last(), text.last(), single, ignore_case),
    decreases pat.len() + text.len(),
{
    if pat[0] == multi {
        if wild_match(pat.drop_first(), text, multi, single, ignore_case) {
            law_anchored_at_end(pat.drop_first(), text, multi, single, ignore_case);
        } else {
            law_anchored_at_end(pat, text.drop_first(), multi, single, ignore_case);
        }
    } else if pat.len() > 1 {
        law_anchored_at_end(pat.drop_first(), text.drop_first(), multi, single, ignore_case);
    } else {
        assert(wild_match(pat.drop_first(), text.drop_first(), multi, single, ignore_case));
        assert(text.drop_first().len() == 0);
    }
}

/// `p` written with wildcards `m1` and `s1` has the structure of `q` written
/// with `m2` and `s2`: the wildcards stand at the same places, and every other
/// symbol is the same.
pub open spec fn same_shape(
    p: Seq<char>,
    m1: char,
    s1: char,
    q: Seq<char>,
    m2: char,
    s2: char,
) -> bool {
    &&& p.len() == q.len()
    &&& forall|k: int|
        0 <= k < p.len() ==> {
            &&& (#[trigger] p[k] == m1 <==> q[k] == m2)
            &&& (p[k] == s1 <==> q[k] == s2)
            &&& (p[k] != m1 && p[k] != s1 ==> p[k] == q[k])
        }
}

/// The wildcard symbols are only names: two patterns of the same structure
/// under two choices of wildcards match the same strings.
pub proof fn law_wildcard_symbols_are_interchangeable(
    p: Seq<char>,
    m1: char,
    s1: char,
    q: Seq<char>,
    m2: char,
    s2: char,
    text: Seq<char>,
    ignore_case: bool,
)
    requires
        same_shape(p, m1, s1, q, m2, s2),
    ensures
        wild_match(p, text, m1, s1, ignore_case) == wild_match(q, text, m2, s2, ignore_case),
    decreases p.len() + text.len(),
{
    if p.len() > 0 {
        let (p1, q1) = (p.drop_first(), q.drop_first());
        assert(same_shape(p1, m1, s1, q1, m2, s2)) by {
            assert forall|k: int| 0 <= k < p1.len() implies {
                &&& (#[trigger] p1[k] == m1 <==> q1[k] == m2)
                &&& (p1[k] == s1 <==> q1[k] == s2)
                &&& (p1[k] != m1 && p1[k] != s1 ==> p1[k] == q1[k])
            } by {
                assert(p[k + 1] == m1 <==> q[k + 1] == m2);
            }
        }
        assert(p[0] == m1 <==> q[0] == m2);
        law_wildcard_symbols_are_interchangeable(p1, m1, s1, q1, m2, s2, text, ignore_case);
        if text.len() > 0 {
            law_wildcard_symbols_are_interchangeable(
                p1,
                m1,
                s1,
                q1,
                m2,
                s2,
                text.drop_first(),
                ignore_case,
            );
            if p[0] == m1 {
                law_wildcard_symbols_are_interchangeable(
                    p,
                    m1,
                    s1,
                    q,
                    m2,
                    s2,
                    text.drop_first(),
                    ignore_case,
                );
            } else {
                assert(char_matches(p[0], text[0], s1, ignore_case) == char_matches(
                    q[0],
                    text[0],
                    s2,
                    ignore_case,
                ));
            }
        }
    }
}

/// Custom wildcards behave as the default ones do: patterns of the same
/// structure under two choices of wildcards, once compiled, match the same
/// strings.
pub proof fn law_custom_wildcards_match_alike(
    p: Seq<char>,
    m1: char,
    s1: char,
    q: Seq<char>,
    m2: char,
    s2: char,
    text: Seq<char>,
    ignore_case: bool,
)
    requires
        same_shape(p, m1, s1, q, m2, s2),
    ensures
        wild_match(collapse(p, m1), text, m1, s1, ignore_case) == wild_match(
            collapse(q, m2),
            text,
            m2,
            s2,
            ignore_case,
        ),
{
    law_compiling_keeps_shape(p, m1, s1, q, m2, s2);
    law_wildcard_symbols_are_interchangeable(
        collapse(p, m1),
        m1,
        s1,
        collapse(q, m2),
        m2,
        s2,
        text,
        ignore_case,
    );
}

/// Compiling keeps the structure: patterns of the same structure under two
/// choices of wildcards compile to patterns of the same structure.
pub proof fn law_compiling_keeps_shape(
    p: Seq<char>,
    m1: char,
    s1: char,
    q: Seq<char>,
    m2: char,
    s2: char,
)
    requires
        same_shape(p, m1, s1, q, m2, s2),
    ensures
        same_shape(collapse(p, m1), m1, s1, collapse(q, m2), m2, s2),
    decreases p.len(),
{
    if p.len() > 0 {
        let (p1, q1) = (p.drop_last(), q.drop_last());
        assert(same_shape(p1, m1, s1, q1, m2, s2)) by {
            assert forall|k: int| 0 <= k < p1.len() implies {
                &&& (#[trigger] p1[k] == m1 <==> q1[k] == m2)
                &&& (p1[k] == s1 <==> q1[k] == s2)
                &&& (p1[k] != m1 && p1[k] != s1 ==> p1[k] == q1[k])
            } by {
                assert(p[k] == m1 <==> q[k] == m2);
            }
        }
        law_compiling_keeps_shape(p1, m1, s1, q1, m2, s2);
        assert(p[p.len() - 1] == m1 <==> q[q.len() - 1] == m2);
        if p.len() >= 2 {
            assert(p[p.len() - 2] == m1 <==> q[q.len() - 2] == m2);
        }
        let (cp, cq) = (collapse(p1, m1), collapse(q1, m2));
        let (rp, rq) = (collapse(p, m1), collapse(q, m2));
        if rp.len() > cp.len() {
            assert forall|k: int| 0 <= k < rp.len() implies {
                &&& (#[trigger] rp[k] == m1 <==> rq[k] == m2)
                &&& (rp[k] == s1 <==> rq[k] == s2)
                &&& (rp[k] != m1 && rp[k] != s1 ==> rp[k] == rq[k])
            } by {
                if k < cp.len() {
                    assert(cp[k] == m1 <==> cq[k] == m2);
                } else {
                    assert(p[p.len() - 1] == s1 <==> q[q.len() - 1] == s2);
                }
            }
        }
    }
}

} // verus!
