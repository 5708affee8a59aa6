//! Laws of the title canonicalizer, chief among them idempotence: the
//! canonical form of a canonical title is itself.

use vstd::prelude::*;
use crate::chars::is_space_char;
use crate::canon::nbsp_at;
use crate::canon::spec_replace_nbsp;
use crate::canon::spec_replace_underscores;
use crate::canon::spec_trim_start;
use crate::canon::spec_trim_end;
use crate::canon::spec_collapse;
use crate::canon::spec_normalize;
use crate::canon::spec_upper_first_char;
use crate::canon::spec_upper_first;
use crate::canon::spec_canonicalize;
use crate::canon::upper_code_of;
use crate::canon::code_of;
use crate::canon::char_of_code;
use crate::canon::is_scalar_code;
use crate::canon::title_char_ok;

verus! {

/// A title in normal form: no non-breaking-space escape, no underscore,
/// and every whitespace character a single interior plain space.
pub open spec fn normalized(t: Seq<char>) -> bool {
    &&& forall|i: int| 0 <= i < t.len() ==> (#[trigger] t[i]) != '_'
    &&& forall|i: int| !nbsp_at(t, i)
    &&& forall|i: int| 0 <= i < t.len() && is_space_char(#[trigger] t[i]) ==> t[i] == ' '
    &&& forall|i: int|
        0 <= i < t.len() - 1 ==> !(is_space_char(#[trigger] t[i]) && is_space_char(t[i + 1]))
    &&& t.len() > 0 ==> !is_space_char(t[0]) && !is_space_char(t[t.len() - 1])
}

/// The tail of the escape, shared by the prefix-reflection arguments.
spec fn nbsp_tail() -> Seq<char> {
    seq!['n', 'b', 's', 'p', ';']
}

/// A space-free prefix of the escape-replaced text is a prefix of the
/// text itself: replacement only ever writes spaces.
proof fn lemma_nbsp_prefix(s: Seq<char>, w: Seq<char>)
    requires
        forall|k: int| 0 <= k < w.len() ==> (#[trigger] w[k]) != ' ',
        w.len() <= spec_replace_nbsp(s).len(),
        forall|k: int| 0 <= k < w.len() ==> spec_replace_nbsp(s)[k] == w[k],
    ensures
        w.len() <= s.len(),
        forall|k: int| 0 <= k < w.len() ==> s[k] == w[k],
    decreases w.len(),
{
    if w.len() > 0 {
        let out = spec_replace_nbsp(s);
        assert(s.len() > 0);
        if nbsp_at(s, 0) {
            assert(out[0] == ' ');
            assert(w[0] != ' ');
            assert(out[0] == w[0]);
            assert(false);
        } else {
            assert(out[0] == s[0]);
            let s1 = s.skip(1);
            let w1 = w.skip(1);
            let out1 = spec_replace_nbsp(s1);
            assert(out =~= seq![s[0]] + out1);
            assert forall|k: int| 0 <= k < w1.len() implies out1[k] == w1[k] && (#[trigger] w1[k])
                != ' ' by {
                assert(out1[k] == out[k + 1]);
                assert(w1[k] == w[k + 1]);
            }
            lemma_nbsp_prefix(s1, w1);
            assert forall|k: int| 0 <= k < w.len() implies s[k] == w[k] by {
                if k > 0 {
                    assert(s1[k - 1] == w1[k - 1]);
                }
            }
        }
    }
}

/// The escape-replaced text holds no occurrence of the escape.
proof fn lemma_replace_nbsp_free(s: Seq<char>)
    ensures
        forall|i: int| !nbsp_at(spec_replace_nbsp(s), i),
    decreases s.len(),
{
    let out = spec_replace_nbsp(s);
    if s.len() == 0 {
    } else if nbsp_at(s, 0) {
        lemma_replace_nbsp_free(s.skip(6));
        let out1 = spec_replace_nbsp(s.skip(6));
        assert forall|i: int| !nbsp_at(out, i) by {
            if nbsp_at(out, i) {
                if i == 0 {
                    assert(out[0] == ' ');
                } else {
                    assert(nbsp_at(out1, i - 1)) by {
                        assert(forall|k: int| 0 <= k < 6 ==> (#[trigger] out[i + k]) == out1[i - 1 + k]);
                    }
                }
            }
        }
    } else {
        lemma_replace_nbsp_free(s.skip(1));
        let out1 = spec_replace_nbsp(s.skip(1));
        assert forall|i: int| !nbsp_at(out, i) by {
            if nbsp_at(out, i) {
                if i == 0 {
                    let w = nbsp_tail();
                    assert(out[0] == s[0] && s[0] == '&');
                    assert forall|k: int| 0 <= k < w.len() implies out1[k] == w[k] && (
                    #[trigger] w[k]) != ' ' by {
                        assert(out1[k] == out[k + 1]);
                        assert(out[k + 1] == w[k]);
                    }
                    lemma_nbsp_prefix(s.skip(1), w);
                    assert(nbsp_at(s, 0)) by {
                        assert(forall|k: int| 0 <= k < 5 ==> (#[trigger] s[1 + k]) == w[k]);
                    }
                } else {
                    assert(nbsp_at(out1, i - 1)) by {
                        assert(forall|k: int| 0 <= k < 6 ==> (#[trigger] out[i + k]) == out1[i - 1 + k]);
                    }
                }
            }
        }
    }
}

/// Replacing underscores keeps the length, leaves no underscore, and
/// cannot create an occurrence of the escape.
proof fn lemma_under_props(s: Seq<char>)
    ensures
        spec_replace_underscores(s).len() == s.len(),
        forall|i: int|
            0 <= i < s.len() ==> (#[trigger] spec_replace_underscores(s)[i]) != '_',
        (forall|i: int| !nbsp_at(s, i)) ==> (forall|i: int| !nbsp_at(
            spec_replace_underscores(s),
            i,
        )),
{
    let out = spec_replace_underscores(s);
    if forall|i: int| !nbsp_at(s, i) {
        assert forall|i: int| !nbsp_at(out, i) by {
            if nbsp_at(out, i) {
                assert(nbsp_at(s, i)) by {
                    assert(out[i] == '&' && s[i] == out[i]);
                    assert(out[i + 1] == 'n' && s[i + 1] == out[i + 1]);
                    assert(out[i + 2] == 'b' && s[i + 2] == out[i + 2]);
                    assert(out[i + 3] == 's' && s[i + 3] == out[i + 3]);
                    assert(out[i + 4] == 'p' && s[i + 4] == out[i + 4]);
                    assert(out[i + 5] == ';' && s[i + 5] == out[i + 5]);
                }
            }
        }
    }
}

/// Dropping leading whitespace leaves a suffix whose first character, if
/// any, is not whitespace.
proof fn lemma_trim_start_is_suffix(s: Seq<char>)
    ensures
        exists|k: int| 0 <= k <= s.len() && spec_trim_start(s) == s.skip(k),
        spec_trim_start(s).len() > 0 ==> !is_space_char(spec_trim_start(s)[0]),
    decreases s.len(),
{
    if s.len() == 0 {
        assert(s.skip(0) =~= s);
        assert(0 <= 0 <= s.len() && spec_trim_start(s) == s.skip(0));
    } else if is_space_char(s[0]) {
        lemma_trim_start_is_suffix(s.skip(1));
        let k1 = choose|k1: int|
            0 <= k1 <= s.skip(1).len() && spec_trim_start(s.skip(1)) == s.skip(1).skip(k1);
        assert(s.skip(1).skip(k1) =~= s.skip(k1 + 1));
        assert(0 <= k1 + 1 <= s.len() && spec_trim_start(s) == s.skip(k1 + 1));
    } else {
        assert(s.skip(0) =~= s);
        assert(0 <= 0 <= s.len() && spec_trim_start(s) == s.skip(0));
    }
}

/// Dropping trailing whitespace leaves a prefix whose last character, if
/// any, is not whitespace.
proof fn lemma_trim_end_is_prefix(s: Seq<char>)
    ensures
        exists|m: int| 0 <= m <= s.len() && spec_trim_end(s) == s.take(m),
        spec_trim_end(s).len() > 0 ==> !is_space_char(
            spec_trim_end(s)[spec_trim_end(s).len() - 1],
        ),
    decreases s.len(),
{
    if s.len() == 0 {
        assert(s.take(0) =~= s);
        assert(0 <= 0 <= s.len() && spec_trim_end(s) == s.take(0));
    } else if is_space_char(s[s.len() - 1]) {
        let t = s.take(s.len() - 1);
        lemma_trim_end_is_prefix(t);
        let m1 = choose|m1: int| 0 <= m1 <= t.len() && spec_trim_end(t) == t.take(m1);
        assert(t.take(m1) =~= s.take(m1));
        assert(0 <= m1 <= s.len() && spec_trim_end(s) == s.take(m1));
    } else {
        assert(s.take(s.len() as int) =~= s);
        assert(0 <= s.len() <= s.len() && spec_trim_end(s) == s.take(s.len() as int));
    }
}

/// The shape of collapsed text: whitespace only as single plain interior
/// spaces, ends as in the input.
proof fn lemma_collapse_shape(t: Seq<char>)
    ensures
        spec_collapse(t).len() == 0 <==> t.len() == 0,
        forall|i: int|
            0 <= i < spec_collapse(t).len() && is_space_char(#[trigger] spec_collapse(t)[i])
                ==> spec_collapse(t)[i] == ' ',
        forall|i: int|
            0 <= i < spec_collapse(t).len() - 1 ==> !(is_space_char(
                #[trigger] spec_collapse(t)[i],
            ) && is_space_char(spec_collapse(t)[i + 1])),
        t.len() > 0 && !is_space_char(t[0]) ==> spec_collapse(t)[0] == t[0],
        t.len() > 0 && is_space_char(t[0]) ==> spec_collapse(t)[0] == ' ',
        t.len() > 0 && !is_space_char(t[t.len() - 1]) ==> !is_space_char(
            spec_collapse(t)[spec_collapse(t).len() - 1],
        ),
    decreases t.len(),
{
    let out = spec_collapse(t);
    if t.len() == 0 {
    } else {
        let t1 = t.skip(1);
        lemma_collapse_shape(t1);
        let out1 = spec_collapse(t1);
        if is_space_char(t[0]) && t.len() >= 2 && is_space_char(t[1]) {
            assert(out == out1);
            assert(t1[0] == t[1]);
            assert(t1[t1.len() - 1] == t[t.len() - 1]);
        } else if is_space_char(t[0]) {
            assert(out =~= seq![' '] + out1);
            assert forall|i: int|
                0 <= i < out.len() && is_space_char(#[trigger] out[i]) implies out[i] == ' ' by {
                if i > 0 {
                    assert(out[i] == out1[i - 1]);
                }
            }
            assert forall|i: int|
                0 <= i < out.len() - 1 implies !(is_space_char(#[trigger] out[i])
                && is_space_char(out[i + 1])) by {
                if i == 0 {
                    if out.len() >= 2 {
                        assert(out[1] == out1[0]);
                        assert(t1.len() > 0);
                        assert(!is_space_char(t1[0]));
                        assert(out1[0] == t1[0]);
                    }
                } else {
                    assert(out[i] == out1[i - 1]);
                    assert(out[i + 1] == out1[i]);
                }
            }
            if t.len() >= 2 && !is_space_char(t[t.len() - 1]) {
                assert(t1[t1.len() - 1] == t[t.len() - 1]);
                assert(out[out.len() - 1] == out1[out1.len() - 1]);
            }
        } else {
            assert(out =~= seq![t[0]] + out1);
            assert forall|i: int|
                0 <= i < out.len() && is_space_char(#[trigger] out[i]) implies out[i] == ' ' by {
                if i > 0 {
                    assert(out[i] == out1[i - 1]);
                }
            }
            assert forall|i: int|
                0 <= i < out.len() - 1 implies !(is_space_char(#[trigger] out[i])
                && is_space_char(out[i + 1])) by {
                if i == 0 {
                    assert(out[0] == t[0]);
                } else {
                    assert(out[i] == out1[i - 1]);
                    assert(out[i + 1] == out1[i]);
                }
            }
            if t.len() == 1 {
                assert(out[out.len() - 1] == t[0]);
            } else if !is_space_char(t[t.len() - 1]) {
                assert(t1[t1.len() - 1] == t[t.len() - 1]);
                assert(out[out.len() - 1] == out1[out1.len() - 1]);
            }
        }
    }
}

/// Collapsing writes only spaces and characters of the input, so it leaves
/// no underscore when the input has none.
proof fn lemma_collapse_underscore_free(t: Seq<char>)
    requires
        forall|j: int| 0 <= j < t.len() ==> (#[trigger] t[j]) != '_',
    ensures
        forall|i: int|
            0 <= i < spec_collapse(t).len() ==> (#[trigger] spec_collapse(t)[i]) != '_',
    decreases t.len(),
{
    let out = spec_collapse(t);
    if t.len() > 0 {
        lemma_collapse_underscore_free(t.skip(1));
        let out1 = spec_collapse(t.skip(1));
        assert forall|i: int| 0 <= i < out.len() implies (#[trigger] out[i]) != '_' by {
            if is_space_char(t[0]) && t.len() >= 2 && is_space_char(t[1]) {
            } else if i > 0 {
                assert(out[i] == out1[i - 1]);
            }
        }
    }
}

/// A whitespace-free prefix of the collapsed text is a prefix of the text
/// itself.
proof fn lemma_collapse_prefix(t: Seq<char>, w: Seq<char>)
    requires
        forall|k: int| 0 <= k < w.len() ==> !is_space_char(#[trigger] w[k]),
        w.len() <= spec_collapse(t).len(),
        forall|k: int| 0 <= k < w.len() ==> spec_collapse(t)[k] == w[k],
    ensures
        w.len() <= t.len(),
        forall|k: int| 0 <= k < w.len() ==> t[k] == w[k],
    decreases w.len(), t.len(),
{
    if w.len() > 0 {
        let out = spec_collapse(t);
        lemma_collapse_shape(t);
        assert(t.len() > 0);
        if is_space_char(t[0]) {
            assert(out[0] == ' ');
            assert(!is_space_char(w[0]));
            assert(false);
        } else {
            let t1 = t.skip(1);
            let w1 = w.skip(1);
            let out1 = spec_collapse(t1);
            assert(out =~= seq![t[0]] + out1);
            assert forall|k: int| 0 <= k < w1.len() implies out1[k] == w1[k] && !is_space_char(
                #[trigger] w1[k],
            ) by {
                assert(out1[k] == out[k + 1]);
                assert(w1[k] == w[k + 1]);
            }
            lemma_collapse_prefix(t1, w1);
            assert forall|k: int| 0 <= k < w.len() implies t[k] == w[k] by {
                if k > 0 {
                    assert(t1[k - 1] == w1[k - 1]);
                }
            }
        }
    }
}

/// Collapsing cannot create an occurrence of the escape.
proof fn lemma_collapse_nbsp_free(t: Seq<char>)
    requires
        forall|i: int| !nbsp_at(t, i),
    ensures
        forall|i: int| !nbsp_at(spec_collapse(t), i),
    decreases t.len(),
{
    let out = spec_collapse(t);
    if t.len() > 0 {
        let t1 = t.skip(1);
        assert forall|i: int| !nbsp_at(t1, i) by {
            if nbsp_at(t1, i) {
                assert(nbsp_at(t, i + 1)) by {
                    assert(forall|k: int| 0 <= k < 6 ==> (#[trigger] t1[i + k]) == t[i + 1 + k]);
                }
            }
        }
        lemma_collapse_nbsp_free(t1);
        let out1 = spec_collapse(t1);
        if is_space_char(t[0]) && t.len() >= 2 && is_space_char(t[1]) {
        } else if is_space_char(t[0]) {
            assert(out =~= seq![' '] + out1);
            assert forall|i: int| !nbsp_at(out, i) by {
                if nbsp_at(out, i) {
                    if i == 0 {
                        assert(out[0] == ' ');
                    } else {
                        assert(nbsp_at(out1, i - 1)) by {
                            assert(forall|k: int| 0 <= k < 6 ==> (#[trigger] out[i + k]) == out1[i - 1 + k]);
                        }
                    }
                }
            }
        } else {
            assert(out =~= seq![t[0]] + out1);
            assert forall|i: int| !nbsp_at(out, i) by {
                if nbsp_at(out, i) {
                    if i == 0 {
                        let w = nbsp_tail();
                        assert forall|k: int| 0 <= k < w.len() implies spec_collapse(t1)[k]
                            == w[k] && !is_space_char(#[trigger] w[k]) by {
                            assert(out1[k] == out[k + 1]);
                            assert(out[k + 1] == w[k]);
                        }
                        lemma_collapse_prefix(t1, w);
                        assert(nbsp_at(t, 0)) by {
                            assert(out[0] == t[0]);
                            assert(forall|k: int| 0 <= k < 5 ==> (#[trigger] t[1 + k]) == w[k]);
                        }
                    } else {
                        assert(nbsp_at(out1, i - 1)) by {
                            assert(forall|k: int| 0 <= k < 6 ==> (#[trigger] out[i + k]) == out1[i - 1 + k]);
                        }
                    }
                }
            }
        }
    }
}

/// A text without the escape is left unchanged by escape replacement.
proof fn lemma_nbsp_fix(t: Seq<char>)
    requires
        forall|i: int| !nbsp_at(t, i),
    ensures
        spec_replace_nbsp(t) == t,
    decreases t.len(),
{
    if t.len() > 0 {
        assert(!nbsp_at(t, 0));
        let t1 = t.skip(1);
        assert forall|i: int| !nbsp_at(t1, i) by {
            if nbsp_at(t1, i) {
                assert(nbsp_at(t, i + 1)) by {
                    assert(forall|k: int| 0 <= k < 6 ==> (#[trigger] t1[i + k]) == t[i + 1 + k]);
                }
            }
        }
        lemma_nbsp_fix(t1);
        assert(spec_replace_nbsp(t) =~= t);
    } else {
        assert(spec_replace_nbsp(t) =~= t);
    }
}

/// A text without underscores is left unchanged by underscore replacement.
proof fn lemma_under_fix(t: Seq<char>)
    requires
        forall|j: int| 0 <= j < t.len() ==> (#[trigger] t[j]) != '_',
    ensures
        spec_replace_underscores(t) == t,
{
    assert(spec_replace_underscores(t) =~= t);
}

/// A text whose whitespace is single interior plain spaces is left
/// unchanged by collapsing.
proof fn lemma_collapse_fix(t: Seq<char>)
    requires
        forall|i: int| 0 <= i < t.len() && is_space_char(#[trigger] t[i]) ==> t[i] == ' ',
        forall|i: int|
            0 <= i < t.len() - 1 ==> !(is_space_char(#[trigger] t[i]) && is_space_char(t[i + 1])),
    ensures
        spec_collapse(t) == t,
    decreases t.len(),
{
    if t.len() > 0 {
        let t1 = t.skip(1);
        assert forall|i: int|
            0 <= i < t1.len() && is_space_char(#[trigger] t1[i]) implies t1[i] == ' ' by {
            assert(t1[i] == t[i + 1]);
        }
        assert forall|i: int|
            0 <= i < t1.len() - 1 implies !(is_space_char(#[trigger] t1[i]) && is_space_char(
            t1[i + 1],
        )) by {
            assert(t1[i] == t[i + 1]);
            assert(t1[i + 1] == t[i + 2]);
        }
        lemma_collapse_fix(t1);
        if is_space_char(t[0]) {
            assert(t.len() >= 2 ==> !is_space_char(t[1]));
            assert(t[0] == ' ');
            assert(spec_collapse(t) =~= t);
        } else {
            assert(spec_collapse(t) =~= t);
        }
    } else {
        assert(spec_collapse(t) =~= t);
    }
}

/// Normalization always yields a title in normal form.
proof fn lemma_normalize_normalized(s: Seq<char>)
    ensures
        normalized(spec_normalize(s)),
{
    let t1 = spec_replace_nbsp(s);
    lemma_replace_nbsp_free(s);
    let t2 = spec_replace_underscores(t1);
    lemma_under_props(t1);
    let t3a = spec_trim_start(t2);
    lemma_trim_start_is_suffix(t2);
    let k = choose|k: int| 0 <= k <= t2.len() && spec_trim_start(t2) == t2.skip(k);
    assert forall|i: int| !nbsp_at(t3a, i) by {
        if nbsp_at(t3a, i) {
            assert(nbsp_at(t2, i + k)) by {
                assert(forall|m: int| 0 <= m < 6 ==> (#[trigger] t3a[i + m]) == t2[i + k + m]);
            }
        }
    }
    assert forall|i: int| 0 <= i < t3a.len() implies (#[trigger] t3a[i]) != '_' by {
        assert(t3a[i] == t2[i + k]);
    }
    let t3 = spec_trim_end(t3a);
    lemma_trim_end_is_prefix(t3a);
    let m = choose|m: int| 0 <= m <= t3a.len() && spec_trim_end(t3a) == t3a.take(m);
    assert forall|i: int| !nbsp_at(t3, i) by {
        if nbsp_at(t3, i) {
            assert(nbsp_at(t3a, i)) by {
                assert(forall|q: int| 0 <= q < 6 ==> (#[trigger] t3[i + q]) == t3a[i + q]);
            }
        }
    }
    assert forall|i: int| 0 <= i < t3.len() implies (#[trigger] t3[i]) != '_' by {
        assert(t3[i] == t3a[i]);
    }
    assert(t3.len() > 0 ==> !is_space_char(t3[0])) by {
        if t3.len() > 0 {
            assert(t3[0] == t3a[0]);
        }
    }
    let t4 = spec_collapse(t3);
    lemma_collapse_shape(t3);
    lemma_collapse_underscore_free(t3);
    lemma_collapse_nbsp_free(t3);
    assert(spec_normalize(s) == t4);
    assert(t4.len() > 0 ==> !is_space_char(t4[0])) by {
        if t4.len() > 0 {
            assert(t3.len() > 0);
            assert(!is_space_char(t3[0]));
            assert(t4[0] == t3[0]);
        }
    }
}

/// A title in normal form is its own normalization.
proof fn lemma_normalize_fix(t: Seq<char>)
    requires
        normalized(t),
    ensures
        spec_normalize(t) == t,
{
    lemma_nbsp_fix(t);
    lemma_under_fix(t);
    assert(spec_trim_start(t) == t);
    assert(spec_trim_end(t) == t);
    lemma_collapse_fix(t);
}

/// The uppercase mapping of a title's first character is stable: applying
/// it twice gives what applying it once gives.
proof fn lemma_upper_first_char_idem(c: char)
    ensures
        spec_upper_first_char(spec_upper_first_char(c)) == spec_upper_first_char(c),
{
    let u = upper_code_of(c);
    if u == 0 || !is_scalar_code(u) {
    } else {
        let c2 = char_of_code(u);
        if code_of(c2) == u && title_char_ok(c2) {
            let u2 = upper_code_of(c2);
            if u2 == 0 {
            } else {
                assert(u2 == code_of(c2));
                assert(is_scalar_code(u2));
                let c3 = char_of_code(u2);
                assert(code_of(c3) == u2) by {
                    assert(exists|x: char| code_of(x) == u2) by {
                        assert(code_of(c2) == u2);
                    }
                }
                crate::canon::lemma_char_code_injective(c3, c2);
            }
        }
    }
}

/// Canonicalization is idempotent: the canonical form of a canonical title
/// is that title itself.
pub proof fn lemma_canonicalize_idempotent(s: Seq<char>)
    ensures
        spec_canonicalize(spec_canonicalize(s)) == spec_canonicalize(s),
{
    let t = spec_normalize(s);
    lemma_normalize_normalized(s);
    if t.len() == 0 {
        let r = spec_upper_first(t);
        assert(r == t);
        lemma_normalize_fix(t);
        assert(spec_canonicalize(r) == r);
    } else {
        let c1 = spec_upper_first_char(t[0]);
        let r = spec_upper_first(t);
        assert(r =~= seq![c1] + t.skip(1));
        assert(r.len() == t.len());
        assert(forall|j: int| 1 <= j < r.len() ==> r[j] == t[j]);
        lemma_upper_first_char_idem(t[0]);
        if c1 == t[0] {
            assert(r =~= t);
            lemma_normalize_fix(t);
            assert(spec_upper_first(r) =~= r);
            assert(spec_canonicalize(r) == r);
        } else {
            let u = upper_code_of(t[0]);
            assert(!(u == 0 || !is_scalar_code(u)));
            assert(c1 == char_of_code(u) && title_char_ok(c1));
            assert(normalized(r)) by {
                assert forall|i: int| 0 <= i < r.len() implies (#[trigger] r[i]) != '_' by {
                    if i > 0 {
                        assert(r[i] == t[i]);
                    }
                }
                assert forall|i: int| !nbsp_at(r, i) by {
                    if nbsp_at(r, i) {
                        if i == 0 {
                            assert(r[0] == c1 && c1 != '&');
                        } else {
                            assert(nbsp_at(t, i)) by {
                                assert(forall|k: int| 0 <= k < 6 ==> (#[trigger] r[i + k]) == t[i + k]);
                            }
                        }
                    }
                }
                assert forall|i: int|
                    0 <= i < r.len() && is_space_char(#[trigger] r[i]) implies r[i] == ' ' by {
                    if i == 0 {
                        assert(!is_space_char(c1));
                    } else {
                        assert(r[i] == t[i]);
                    }
                }
                assert forall|i: int|
                    0 <= i < r.len() - 1 implies !(is_space_char(#[trigger] r[i])
                    && is_space_char(r[i + 1])) by {
                    if i == 0 {
                        assert(!is_space_char(c1));
                    } else {
                        assert(r[i] == t[i]);
                        assert(r[i + 1] == t[i + 1]);
                    }
                }
                assert(!is_space_char(r[0]));
                assert(r[r.len() - 1] == if r.len() == 1 {
                    c1
                } else {
                    t[t.len() - 1]
                });
            }
            lemma_normalize_fix(r);
            assert(spec_upper_first_char(r[0]) == r[0]) by {
                assert(r[0] == c1);
                assert(spec_upper_first_char(c1) == spec_upper_first_char(
                    spec_upper_first_char(t[0]),
                ));
            }
            assert(spec_upper_first(r) =~= r);
            assert(spec_canonicalize(r) == r);
        }
    }
}

/// Canonicalization is case-stable beyond the first character: it maps
/// the first character of the normalized title and leaves every later
/// character of it untouched.
pub proof fn lemma_case_stable_beyond_first(s: Seq<char>)
    ensures
        spec_canonicalize(s).len() == spec_normalize(s).len(),
        forall|i: int|
            1 <= i < spec_normalize(s).len() ==> spec_canonicalize(s)[i] == spec_normalize(s)[i],
{
}

} // verus!
