//! The title canonicalizer.
//!
//! Every stage of the pipeline keys pages by canonical titles, so one pure
//! function produces them: the non-breaking-space escape and underscores
//! become spaces, surrounding whitespace is dropped, interior whitespace
//! runs collapse to a single space, and the first character is mapped to
//! its uppercase form.

use vstd::prelude::*;
use crate::chars::is_space_char;
use crate::chars::is_space;

verus! {

/// Whether the literal escape `&nbsp;` occurs in `s` at position `i`.
pub open spec fn nbsp_at(s: Seq<char>, i: int) -> bool {
    &&& 0 <= i
    &&& i + 6 <= s.len()
    &&& s[i] == '&'
    &&& s[i + 1] == 'n'
    &&& s[i + 2] == 'b'
    &&& s[i + 3] == 's'
    &&& s[i + 4] == 'p'
    &&& s[i + 5] == ';'
}

/// `s` with every occurrence of the escape `&nbsp;` replaced by a space,
/// scanning left to right.
pub open spec fn spec_replace_nbsp(s: Seq<char>) -> Seq<char>
    decreases s.len(),
{
    if s.len() == 0 {
        Seq::empty()
    } else if nbsp_at(s, 0) {
        seq![' '] + spec_replace_nbsp(s.skip(6))
    } else {
        seq![s[0]] + spec_replace_nbsp(s.skip(1))
    }
}

/// `s` with every underscore replaced by a space.
pub open spec fn spec_replace_underscores(s: Seq<char>) -> Seq<char> {
    s.map_values(|c: char| if c == '_' { ' ' } else { c })
}

/// `s` without its leading whitespace.
pub open spec fn spec_trim_start(s: Seq<char>) -> Seq<char>
    decreases s.len(),
{
    if s.len() == 0 {
        s
    } else if is_space_char(s[0]) {
        spec_trim_start(s.skip(1))
    } else {
        s
    }
}

/// `s` without its trailing whitespace.
pub open spec fn spec_trim_end(s: Seq<char>) -> Seq<char>
    decreases s.len(),
{
    if s.len() == 0 {
        s
    } else if is_space_char(s[s.len() - 1]) {
        spec_trim_end(s.take(s.len() - 1))
    } else {
        s
    }
}

/// `s` without leading and trailing whitespace.
pub open spec fn spec_trim(s: Seq<char>) -> Seq<char> {
    spec_trim_end(spec_trim_start(s))
}

/// `s` with every maximal run of whitespace replaced by a single space.
pub open spec fn spec_collapse(s: Seq<char>) -> Seq<char>
    decreases s.len(),
{
    if s.len() == 0 {
        Seq::empty()
    } else if is_space_char(s[0]) {
        if s.len() >= 2 && is_space_char(s[1]) {
            spec_collapse(s.skip(1))
        } else {
            seq![' '] + spec_collapse(s.skip(1))
        }
    } else {
        seq![s[0]] + spec_collapse(s.skip(1))
    }
}

/// The whitespace normalization applied to every title: escapes and
/// underscores become spaces, surrounding whitespace is dropped, interior
/// runs collapse to single spaces.
pub open spec fn spec_normalize(s: Seq<char>) -> Seq<char> {
    spec_collapse(spec_trim(spec_replace_underscores(spec_replace_nbsp(s))))
}

/// The first code point of the full Unicode uppercase mapping of `c`, or 0
/// when `c` maps to itself. The mapping is a fixed table, a function of the
/// character alone.
pub uninterp spec fn upper_code_of(c: char) -> u32;

/// The code point of a character.
pub open spec fn code_of(c: char) -> u32 {
    c as u32
}

/// Whether `u` is a Unicode scalar value, the code of some character.
pub open spec fn is_scalar_code(u: u32) -> bool {
    u < 0xD800 || (0xE000 <= u && u <= 0x10FFFF)
}

/// The character with code point `u`, where one exists.
pub open spec fn char_of_code(u: u32) -> char {
    choose|c: char| code_of(c) == u
}

/// Whether a character may stand as the uppercased first character of a
/// canonical title: not whitespace, not one of the characters the
/// normalization rewrites, and stable under a further uppercase mapping.
pub open spec fn title_char_ok(c: char) -> bool {
    &&& !is_space_char(c)
    &&& c != '_'
    &&& c != '&'
    &&& is_scalar_code(code_of(c))
    &&& (upper_code_of(c) == 0 || upper_code_of(c) == code_of(c))
}

/// The uppercase mapping applied to a title's first character. The mapped
/// character is used only when it exists and behaves as a title's first
/// character must; otherwise the character is kept unchanged.
pub open spec fn spec_upper_first_char(c: char) -> char {
    let u = upper_code_of(c);
    if u == 0 || !is_scalar_code(u) {
        c
    } else {
        let c2 = char_of_code(u);
        if code_of(c2) == u && title_char_ok(c2) {
            c2
        } else {
            c
        }
    }
}

/// `s` with its first character mapped to uppercase.
pub open spec fn spec_upper_first(s: Seq<char>) -> Seq<char> {
    if s.len() == 0 {
        s
    } else {
        seq![spec_upper_first_char(s[0])] + s.skip(1)
    }
}

/// The canonical form of a title.
pub open spec fn spec_canonicalize(s: Seq<char>) -> Seq<char> {
    spec_upper_first(spec_normalize(s))
}

/// Relies on `unicode_case_mapping::to_uppercase`: the first element of the
/// returned array is the first code point of the character's full uppercase
/// mapping, and 0 when the character maps to itself. The table is fixed, so
/// the result depends on the character alone.
#[verifier::external_body]
fn upper_code(c: char) -> (r: u32)
    ensures
        r == upper_code_of(c),
{
    unicode_case_mapping::to_uppercase(c)[0]
}

/// Relies on `char::from_u32`: documented to return the character with the
/// given code point when the value is a Unicode scalar value (not a
/// surrogate and at most 0x10FFFF), and `None` otherwise.
#[verifier::external_body]
fn char_from_code(u: u32) -> (r: Option<char>)
    ensures
        r matches Some(c) ==> c as u32 == u,
        r is Some <==> is_scalar_code(u),
{
    char::from_u32(u)
}

/// Two characters with the same code point are the same character.
pub proof fn lemma_char_code_injective(a: char, b: char)
    requires
        a as u32 == b as u32,
    ensures
        a == b,
{
}

/// Maps a title's first character to uppercase.
fn upper_first_char(c: char) -> (r: char)
    ensures
        r == spec_upper_first_char(c),
{
    let u = upper_code(c);
    if u == 0 {
        return c;
    }
    match char_from_code(u) {
        None => c,
        Some(c2) => {
            proof {
                assert(code_of(c2) == u);
                assert(code_of(char_of_code(u)) == u) by {
                    assert(exists|x: char| code_of(x) == u) by {
                        assert(code_of(c2) == u);
                    }
                }
                let c3 = char_of_code(u);
                assert(c3 as u32 == c2 as u32);
                lemma_char_code_injective(c3, c2);
            }
            let u2 = upper_code(c2);
            let cu = c2 as u32;
            let scalar = cu < 0xD800 || (0xE000 <= cu && cu <= 0x10FFFF);
            if !is_space(c2) && c2 != '_' && c2 != '&' && scalar && (u2 == 0 || u2 == cu) {
                c2
            } else {
                c
            }
        },
    }
}

/// Replaces every occurrence of the escape `&nbsp;` by a space.
fn replace_nbsp(s: &Vec<char>) -> (r: Vec<char>)
    ensures
        r@ == spec_replace_nbsp(s@),
{
    let mut r: Vec<char> = Vec::new();
    let mut i: usize = 0;
    proof {
        assert(s@.skip(0) =~= s@);
        assert(r@ + spec_replace_nbsp(s@) =~= spec_replace_nbsp(s@));
    }
    while i < s.len()
        invariant
            0 <= i <= s.len(),
            spec_replace_nbsp(s@) == r@ + spec_replace_nbsp(s@.skip(i as int)),
        decreases s.len() - i,
    {
        let long_enough = s.len() - i >= 6;
        if long_enough && s[i] == '&' && s[i + 1] == 'n' && s[i + 2] == 'b' && s[i + 3] == 's'
            && s[i + 4] == 'p' && s[i + 5] == ';' {
            proof {
                assert(nbsp_at(s@.skip(i as int), 0));
                assert(s@.skip(i as int).skip(6) =~= s@.skip(i + 6));
                assert(spec_replace_nbsp(s@.skip(i as int)) == seq![' ']
                    + spec_replace_nbsp(s@.skip(i + 6)));
            }
            r.push(' ');
            proof {
                assert(spec_replace_nbsp(s@) == r@ + spec_replace_nbsp(s@.skip(i + 6)));
            }
            i += 6;
        } else {
            proof {
                assert(!nbsp_at(s@.skip(i as int), 0));
                assert(s@.skip(i as int)[0] == s@[i as int]);
                assert(s@.skip(i as int).skip(1) =~= s@.skip(i + 1));
                assert(spec_replace_nbsp(s@.skip(i as int)) == seq![s@[i as int]]
                    + spec_replace_nbsp(s@.skip(i + 1)));
            }
            r.push(s[i]);
            proof {
                assert(spec_replace_nbsp(s@) == r@ + spec_replace_nbsp(s@.skip(i + 1)));
            }
            i += 1;
        }
    }
    proof {
        assert(s@.skip(s@.len() as int) =~= Seq::<char>::empty());
        assert(r@ + Seq::<char>::empty() =~= r@);
    }
    r
}

/// Replaces every underscore by a space.
fn replace_underscores(s: &Vec<char>) -> (r: Vec<char>)
    ensures
        r@ == spec_replace_underscores(s@),
{
    let mut r: Vec<char> = Vec::new();
    let mut i: usize = 0;
    while i < s.len()
        invariant
            0 <= i <= s.len(),
            r@.len() == i,
            forall|j: int| 0 <= j < i ==> r@[j] == spec_replace_underscores(s@)[j],
        decreases s.len() - i,
    {
        if s[i] == '_' {
            r.push(' ');
        } else {
            r.push(s[i]);
        }
        i += 1;
    }
    proof {
        assert(r@ =~= spec_replace_underscores(s@));
    }
    r
}

/// Drops leading and trailing whitespace.
fn trim_chars(s: &Vec<char>) -> (r: Vec<char>)
    ensures
        r@ == spec_trim(s@),
{
    let mut a: usize = 0;
    proof {
        assert(s@.skip(0) =~= s@);
    }
    while a < s.len() && is_space(s[a])
        invariant
            0 <= a <= s.len(),
            spec_trim_start(s@) == spec_trim_start(s@.skip(a as int)),
        decreases s.len() - a,
    {
        proof {
            assert(s@.skip(a as int)[0] == s@[a as int]);
            assert(s@.skip(a as int).skip(1) =~= s@.skip(a + 1));
        }
        a += 1;
    }
    proof {
        if a == s.len() {
            assert(s@.skip(a as int) =~= Seq::<char>::empty());
            assert(spec_trim_start(s@) =~= s@.skip(a as int));
        } else {
            assert(s@.skip(a as int)[0] == s@[a as int]);
            assert(spec_trim_start(s@) == s@.skip(a as int));
        }
    }
    let ghost t: Seq<char> = s@.skip(a as int);
    let mut b: usize = s.len();
    proof {
        assert(t.take(s.len() - a) =~= t);
    }
    while b > a && is_space(s[b - 1])
        invariant
            a <= b <= s.len(),
            t == s@.skip(a as int),
            spec_trim_start(s@) == t,
            spec_trim_end(t) == spec_trim_end(t.take(b - a)),
        decreases b,
    {
        proof {
            let m = b - a;
            assert(t.take(m)[m - 1] == s@[b - 1]);
            assert(t.take(m).take(m - 1) =~= t.take(m - 1));
            assert(spec_trim_end(t.take(m)) == spec_trim_end(t.take(m - 1)));
        }
        b -= 1;
    }
    proof {
        if b == a {
            assert(t.take(0) =~= Seq::<char>::empty());
            assert(spec_trim_end(t) =~= t.take(0));
        } else {
            let m = b - a;
            assert(t.take(m)[m - 1] == s@[b - 1]);
            assert(spec_trim_end(t.take(m)) == t.take(m));
        }
    }
    let mut r: Vec<char> = Vec::new();
    let mut j: usize = a;
    while j < b
        invariant
            a <= j <= b <= s.len(),
            r@.len() == j - a,
            forall|k: int| 0 <= k < j - a ==> r@[k] == s@[a + k],
        decreases b - j,
    {
        r.push(s[j]);
        j += 1;
    }
    proof {
        assert(r@ =~= t.take(b - a));
    }
    r
}

/// Collapses every maximal run of whitespace into one space.
fn collapse_spaces(s: &Vec<char>) -> (r: Vec<char>)
    ensures
        r@ == spec_collapse(s@),
{
    let mut r: Vec<char> = Vec::new();
    let mut i: usize = 0;
    proof {
        assert(s@.skip(0) =~= s@);
        assert(r@ + spec_collapse(s@) =~= spec_collapse(s@));
    }
    while i < s.len()
        invariant
            0 <= i <= s.len(),
            spec_collapse(s@) == r@ + spec_collapse(s@.skip(i as int)),
        decreases s.len() - i,
    {
        proof {
            assert(s@.skip(i as int)[0] == s@[i as int]);
            if i + 1 < s@.len() {
                assert(s@.skip(i as int)[1] == s@[i + 1]);
            }
            assert(s@.skip(i as int).skip(1) =~= s@.skip(i + 1));
        }
        if is_space(s[i]) {
            if i + 1 < s.len() && is_space(s[i + 1]) {
                proof {
                    assert(spec_collapse(s@.skip(i as int)) == spec_collapse(s@.skip(i + 1)));
                }
            } else {
                proof {
                    assert(spec_collapse(s@.skip(i as int)) == seq![' ']
                        + spec_collapse(s@.skip(i + 1)));
                }
                r.push(' ');
            }
        } else {
            proof {
                assert(spec_collapse(s@.skip(i as int)) == seq![s@[i as int]]
                    + spec_collapse(s@.skip(i + 1)));
            }
            r.push(s[i]);
        }
        proof {
            assert(spec_collapse(s@) == r@ + spec_collapse(s@.skip(i + 1)));
        }
        i += 1;
    }
    proof {
        assert(s@.skip(s@.len() as int) =~= Seq::<char>::empty());
        assert(r@ + Seq::<char>::empty() =~= r@);
    }
    r
}

/// Maps the first character to uppercase.
fn upper_first_chars(s: &Vec<char>) -> (r: Vec<char>)
    ensures
        r@ == spec_upper_first(s@),
{
    let mut r: Vec<char> = Vec::new();
    if s.len() == 0 {
        proof {
            assert(r@ =~= spec_upper_first(s@));
        }
        return r;
    }
    r.push(upper_first_char(s[0]));
    let mut i: usize = 1;
    while i < s.len()
        invariant
            1 <= i <= s.len(),
            s.len() >= 1,
            r@.len() == i,
            r@[0] == spec_upper_first_char(s@[0]),
            forall|j: int| 1 <= j < i ==> r@[j] == s@[j],
        decreases s.len() - i,
    {
        r.push(s[i]);
        i += 1;
    }
    proof {
        assert(r@ =~= spec_upper_first(s@));
    }
    r
}

/// The canonical form of a title, over character vectors.
pub fn canonicalize_chars(s: &Vec<char>) -> (r: Vec<char>)
    ensures
        r@ == spec_canonicalize(s@),
{
    let a = replace_nbsp(s);
    let b = replace_underscores(&a);
    let c = trim_chars(&b);
    let d = collapse_spaces(&c);
    upper_first_chars(&d)
}

/// The canonical form of a title: the identity key used by every stage.
pub fn canonicalize(s: &str) -> (r: String)
    ensures
        r@ == spec_canonicalize(s@),
{
    let v = crate::chars::chars_of(s);
    let c = canonicalize_chars(&v);
    crate::chars::string_of(&c)
}

} // verus!
