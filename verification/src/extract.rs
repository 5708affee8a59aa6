//! Link and category extraction: trailing-section truncation, bracket link
//! spans, the wikilink capture with its interwiki prefixes, the category
//! capture, and per-page deduplication.

use vstd::prelude::*;
use crate::chars::ascii_eq_at;
use crate::chars::ascii_eq_at_exec;
use crate::chars::eq_at;
use crate::chars::eq_at_exec;
use crate::chars::chars_of;
use crate::chars::is_space;
use crate::chars::is_space_char;
use crate::chars::seq_eq;
use crate::canon::spec_canonicalize;
use crate::canon::canonicalize_chars;

verus! {

/// Whether one of the trailing-section names stands at position `j`, up to
/// ASCII case.
pub open spec fn section_name_at(s: Seq<char>, j: int) -> bool {
    ||| ascii_eq_at(s, j, "see also"@)
    ||| ascii_eq_at(s, j, "references"@)
    ||| ascii_eq_at(s, j, "external links"@)
    ||| ascii_eq_at(s, j, "notes"@)
}

/// Whether a trailing-section heading starts at position `i`: `==`, then
/// whitespace, then one of the trailing-section names.
pub open spec fn heading_at(s: Seq<char>, i: int) -> bool {
    &&& 0 <= i
    &&& i + 2 <= s.len()
    &&& s[i] == '='
    &&& s[i + 1] == '='
    &&& exists|j: int|
        #[trigger] section_name_at(s, j) && i + 2 <= j <= s.len() && (forall|k: int|
            i + 2 <= k < j ==> is_space_char(s[k]))
}

/// The position of the first trailing-section heading at or after `i`.
pub open spec fn first_heading_from(s: Seq<char>, i: int) -> Option<int>
    decreases s.len() - i,
{
    if i < 0 || i >= s.len() {
        None
    } else if heading_at(s, i) {
        Some(i)
    } else {
        first_heading_from(s, i + 1)
    }
}

/// The text up to its first trailing-section heading; the heading and all
/// that follows it are discarded.
pub open spec fn spec_truncate_sections(s: Seq<char>) -> Seq<char> {
    match first_heading_from(s, 0) {
        Some(i) => s.take(i),
        None => s,
    }
}

/// Copies the characters of `s` with positions in `[a, b)`.
fn copy_range(s: &Vec<char>, a: usize, b: usize) -> (r: Vec<char>)
    requires
        a <= b <= s.len(),
    ensures
        r@ == s@.subrange(a as int, b as int),
{
    let mut r: Vec<char> = Vec::new();
    let mut j: usize = a;
    while j < b
        invariant
            a <= j <= b <= s.len(),
            r@.len() == j - a,
            forall|k: int| 0 <= k < j - a ==> r@[k] == s@[a + k],
        decreases b - j,
    {
        r.push(s[j]);
        j += 1;
    }
    proof {
        assert(r@ =~= s@.subrange(a as int, b as int));
    }
    r
}

/// Truncates the text at its first trailing-section heading.
#[verifier::loop_isolation(false)]
pub fn truncate_sections(s: &Vec<char>) -> (r: Vec<char>)
    ensures
        r@ == spec_truncate_sections(s@),
{
    let n1 = chars_of("see also");
    let n2 = chars_of("references");
    let n3 = chars_of("external links");
    let n4 = chars_of("notes");
    proof {
        reveal_strlit("see also");
        reveal_strlit("references");
        reveal_strlit("external links");
        reveal_strlit("notes");
        assert(s@.skip(0) =~= s@);
    }
    let mut i: usize = 0;
    while i < s.len()
        invariant
            0 <= i <= s.len(),
            first_heading_from(s@, 0) == first_heading_from(s@, i as int),
        decreases s.len() - i,
    {
        if s[i] == '=' && i + 1 < s.len() && s[i + 1] == '=' {
            let mut j: usize = i + 2;
            while j < s.len() && is_space(s[j])
                invariant
                    i + 2 <= j <= s.len(),
                    forall|k: int| i + 2 <= k < j ==> is_space_char(s@[k]),
                decreases s.len() - j,
            {
                j += 1;
            }
            let hit = ascii_eq_at_exec(s, j, &n1) || ascii_eq_at_exec(s, j, &n2)
                || ascii_eq_at_exec(s, j, &n3) || ascii_eq_at_exec(s, j, &n4);
            if hit {
                proof {
                    assert(section_name_at(s@, j as int));
                    assert(heading_at(s@, i as int));
                    assert(first_heading_from(s@, i as int) == Some(i as int));
                }
                return copy_range(s, 0, i);
            }
            proof {
                assert(!heading_at(s@, i as int)) by {
                    assert forall|m: int|
                        !(#[trigger] section_name_at(s@, m) && i + 2 <= m <= s@.len() && (forall|
                            k: int,
                        |
                            i + 2 <= k < m ==> is_space_char(s@[k]))) by {
                        if i + 2 <= m <= s@.len() && (forall|k: int|
                            i + 2 <= k < m ==> is_space_char(s@[k])) {
                            if m < j {
                                assert(is_space_char(s@[m]));
                                assert(!section_name_at(s@, m)) by {
                                    assert(!ascii_eq_at(s@, m, "see also"@)) by {
                                        if ascii_eq_at(s@, m, "see also"@) {
                                            assert(crate::chars::ascii_eq(
                                                s@[m + 0],
                                                "see also"@[0],
                                            ));
                                        }
                                    }
                                    assert(!ascii_eq_at(s@, m, "references"@)) by {
                                        if ascii_eq_at(s@, m, "references"@) {
                                            assert(crate::chars::ascii_eq(
                                                s@[m + 0],
                                                "references"@[0],
                                            ));
                                        }
                                    }
                                    assert(!ascii_eq_at(s@, m, "external links"@)) by {
                                        if ascii_eq_at(s@, m, "external links"@) {
                                            assert(crate::chars::ascii_eq(
                                                s@[m + 0],
                                                "external links"@[0],
                                            ));
                                        }
                                    }
                                    assert(!ascii_eq_at(s@, m, "notes"@)) by {
                                        if ascii_eq_at(s@, m, "notes"@) {
                                            assert(crate::chars::ascii_eq(
                                                s@[m + 0],
                                                "notes"@[0],
                                            ));
                                        }
                                    }
                                }
                            } else if m > j {
                                assert(j < s@.len() ==> !is_space_char(s@[j as int]));
                                assert(is_space_char(s@[j as int]));
                            }
                        }
                    }
                }
            }
        } else {
            proof {
                assert(!heading_at(s@, i as int));
            }
        }
        i += 1;
    }
    proof {
        assert(first_heading_from(s@, s@.len() as int) is None);
        assert(s@.subrange(0, s@.len() as int) =~= s@);
    }
    copy_range(s, 0, s.len())
}

/// Whether a link opener `[[` stands at position `i`.
pub open spec fn link_open_at(s: Seq<char>, i: int) -> bool {
    &&& 0 <= i
    &&& i + 2 <= s.len()
    &&& s[i] == '['
    &&& s[i + 1] == '['
}

/// Whether a link closer `]]` stands at position `i`.
pub open spec fn link_close_at(s: Seq<char>, i: int) -> bool {
    &&& 0 <= i
    &&& i + 2 <= s.len()
    &&& s[i] == ']'
    &&& s[i + 1] == ']'
}

/// The end of the shortest bracket span starting at `i`: scanning from `k`,
/// the first closer, provided no bracket character interrupts the span's
/// interior and the interior is nonempty.
pub open spec fn span_end_from(s: Seq<char>, i: int, k: int) -> Option<int>
    decreases s.len() - k,
{
    if k < 0 || k >= s.len() {
        None
    } else if s[k] == '[' {
        None
    } else if s[k] == ']' {
        if link_close_at(s, k) && k >= i + 3 {
            Some(k)
        } else {
            None
        }
    } else {
        span_end_from(s, i, k + 1)
    }
}

/// The bracket link spans of the text, in order, as pairs of the opener
/// position and the closer position; spans do not overlap and their
/// interiors hold no bracket characters.
pub open spec fn spec_spans(s: Seq<char>, i: int) -> Seq<(int, int)>
    decreases s.len() - i,
{
    if i < 0 || i >= s.len() {
        Seq::empty()
    } else if link_open_at(s, i) {
        match span_end_from(s, i, i + 2) {
            Some(j) => if i + 2 <= j && j + 2 <= s.len() {
                seq![(i, j)] + spec_spans(s, j + 2)
            } else {
                spec_spans(s, i + 1)
            },
            None => spec_spans(s, i + 1),
        }
    } else {
        spec_spans(s, i + 1)
    }
}

/// The position of the first capture delimiter (`#`, `|` or `]]`) at or
/// after `q`.
pub open spec fn link_delim_from(s: Seq<char>, q: int) -> Option<int>
    decreases s.len() - q,
{
    if q < 0 || q >= s.len() {
        None
    } else if s[q] == '#' || s[q] == '|' || link_close_at(s, q) {
        Some(q)
    } else {
        link_delim_from(s, q + 1)
    }
}

/// The nonempty capture starting at `p`: the characters up to the first
/// delimiter after `p`, provided no newline interrupts them.
pub open spec fn capture_of(s: Seq<char>, p: int) -> Option<Seq<char>> {
    match link_delim_from(s, p + 1) {
        Some(q) => if forall|r: int| p <= r < q ==> s[r] != '\n' {
            Some(s.subrange(p, q))
        } else {
            None
        },
        None => None,
    }
}

/// The chosen capture start after the interwiki prefixes `w:` and `en:`:
/// as many prefixes as possible are consumed, and consumed prefixes are
/// given back one at a time while no capture can follow them.
pub open spec fn try_prefixes(s: Seq<char>, p: int) -> Option<int>
    decreases s.len() - p,
{
    if ascii_eq_at(s, p, "w:"@) && "w:"@.len() == 2 {
        match try_prefixes(s, p + 2) {
            Some(r) => Some(r),
            None => if capture_of(s, p) is Some {
                Some(p)
            } else {
                None
            },
        }
    } else if ascii_eq_at(s, p, "en:"@) && "en:"@.len() == 3 {
        match try_prefixes(s, p + 3) {
            Some(r) => Some(r),
            None => if capture_of(s, p) is Some {
                Some(p)
            } else {
                None
            },
        }
    } else {
        if capture_of(s, p) is Some {
            Some(p)
        } else {
            None
        }
    }
}

/// The capture start of a wikilink whose opener stands at `b`: an optional
/// leading colon, then the interwiki prefixes, with the colon given back
/// when nothing matches after it.
pub open spec fn wikilink_start_at(s: Seq<char>, b: int) -> Option<int> {
    if b + 2 < s.len() && s[b + 2] == ':' {
        match try_prefixes(s, b + 3) {
            Some(r) => Some(r),
            None => try_prefixes(s, b + 2),
        }
    } else {
        try_prefixes(s, b + 2)
    }
}

/// The captured target of a wikilink whose opener stands at `b`.
pub open spec fn wikilink_capture_at(s: Seq<char>, b: int) -> Option<Seq<char>> {
    match wikilink_start_at(s, b) {
        Some(p) => capture_of(s, p),
        None => None,
    }
}

/// Whether a captured target is a file or image embed, checked verbatim.
pub open spec fn file_or_image(c: Seq<char>) -> bool {
    eq_at(c, 0, "File:"@) || eq_at(c, 0, "Image:"@)
}

/// The captured category name of a span string: the `Category:` namespace
/// up to ASCII case, then a capture.
pub open spec fn spec_category_capture(t: Seq<char>) -> Option<Seq<char>> {
    if ascii_eq_at(t, 2, "category:"@) && "category:"@.len() == 9 {
        capture_of(t, 11)
    } else {
        None
    }
}

/// Decides `link_delim_from` at or after `q0`.
fn find_link_delim(s: &Vec<char>, q0: usize) -> (r: Option<usize>)
    ensures
        match r {
            Some(q) => link_delim_from(s@, q0 as int) == Some(q as int) && q0 <= q < s.len(),
            None => link_delim_from(s@, q0 as int) is None,
        },
{
    let mut q: usize = q0;
    while q < s.len()
        invariant
            q0 <= q,
            link_delim_from(s@, q0 as int) == link_delim_from(s@, q as int),
        decreases s.len() - q,
    {
        if s[q] == '#' || s[q] == '|' {
            return Some(q);
        }
        if s[q] == ']' && q + 1 < s.len() && s[q + 1] == ']' {
            proof {
                assert(link_close_at(s@, q as int));
            }
            return Some(q);
        }
        proof {
            assert(!link_close_at(s@, q as int));
        }
        q += 1;
    }
    None
}

/// Decides `capture_of` at `p`, handing back the captured characters.
#[verifier::loop_isolation(false)]
fn capture_of_exec(s: &Vec<char>, p: usize) -> (r: Option<Vec<char>>)
    requires
        p <= s.len(),
    ensures
        match r {
            Some(v) => capture_of(s@, p as int) == Some(v@),
            None => capture_of(s@, p as int) is None,
        },
{
    if p == s.len() {
        proof {
            assert(link_delim_from(s@, p + 1) is None);
        }
        return None;
    }
    match find_link_delim(s, p + 1) {
        None => None,
        Some(q) => {
            let mut r: usize = p;
            while r < q
                invariant
                    p <= r <= q,
                    q < s.len(),
                    forall|m: int| p <= m < r ==> s@[m] != '\n',
                decreases q - r,
            {
                if s[r] == '\n' {
                    return None;
                }
                r += 1;
            }
            Some(copy_range(s, p, q))
        },
    }
}

/// Decides `try_prefixes` at `p`.
#[verifier::loop_isolation(false)]
fn try_prefixes_exec(s: &Vec<char>, p: usize) -> (r: Option<usize>)
    requires
        p <= s.len(),
    ensures
        match r {
            Some(v) => try_prefixes(s@, p as int) == Some(v as int) && v <= s.len(),
            None => try_prefixes(s@, p as int) is None,
        },
    decreases s.len() - p,
{
    proof {
        reveal_strlit("w:");
        reveal_strlit("en:");
    }
    let w = chars_of("w:");
    let en = chars_of("en:");
    if ascii_eq_at_exec(s, p, &w) {
        match try_prefixes_exec(s, p + 2) {
            Some(v) => Some(v),
            None => {
                match capture_of_exec(s, p) {
                    Some(_c) => Some(p),
                    None => None,
                }
            },
        }
    } else if ascii_eq_at_exec(s, p, &en) {
        match try_prefixes_exec(s, p + 3) {
            Some(v) => Some(v),
            None => {
                match capture_of_exec(s, p) {
                    Some(_c) => Some(p),
                    None => None,
                }
            },
        }
    } else {
        match capture_of_exec(s, p) {
            Some(_c) => Some(p),
            None => None,
        }
    }
}

/// Decides `wikilink_capture_at` for an opener at `b`, handing back the
/// captured target.
fn wikilink_capture_exec(s: &Vec<char>, b: usize) -> (r: Option<Vec<char>>)
    requires
        b + 2 <= s.len(),
    ensures
        match r {
            Some(v) => wikilink_capture_at(s@, b as int) == Some(v@),
            None => wikilink_capture_at(s@, b as int) is None,
        },
{
    let start: Option<usize> = if b + 2 < s.len() && s[b + 2] == ':' {
        match try_prefixes_exec(s, b + 3) {
            Some(v) => Some(v),
            None => try_prefixes_exec(s, b + 2),
        }
    } else {
        try_prefixes_exec(s, b + 2)
    };
    match start {
        Some(p) => {
            proof {
                assert(wikilink_start_at(s@, b as int) == Some(p as int));
            }
            capture_of_exec(s, p)
        },
        None => {
            proof {
                assert(wikilink_start_at(s@, b as int) is None);
            }
            None
        },
    }
}

/// The first-occurrence deduplication of a list of titles.
pub open spec fn spec_dedup(l: Seq<Seq<char>>) -> Seq<Seq<char>>
    decreases l.len(),
{
    if l.len() == 0 {
        l
    } else {
        let rest = spec_dedup(l.drop_last());
        if rest.contains(l.last()) {
            rest
        } else {
            rest.push(l.last())
        }
    }
}

/// Decides whether a title already stands in the accumulated list.
fn contains_seq(acc: &Vec<Vec<char>>, v: &Vec<char>) -> (r: bool)
    ensures
        r == acc.deep_view().contains(v@),
{
    let mut i: usize = 0;
    while i < acc.len()
        invariant
            0 <= i <= acc.len(),
            forall|j: int| 0 <= j < i ==> acc.deep_view()[j] != v@,
        decreases acc.len() - i,
    {
        if seq_eq(&acc[i], v) {
            proof {
                assert(acc.deep_view()[i as int] =~= acc@[i as int]@);
                assert(acc.deep_view().contains(v@)) by {
                    assert(acc.deep_view()[i as int] == v@);
                }
            }
            return true;
        }
        proof {
            assert(acc.deep_view()[i as int] =~= acc@[i as int]@);
        }
        i += 1;
    }
    proof {
        if acc.deep_view().contains(v@) {
            let j = choose|j: int| 0 <= j < acc.deep_view().len() && acc.deep_view()[j] == v@;
            assert(acc.deep_view()[j] != v@);
        }
    }
    false
}

/// Appending one title to a deduplicated list keeps it deduplicated: the
/// title is dropped exactly when it is already present.
proof fn lemma_dedup_push(l: Seq<Seq<char>>, x: Seq<char>)
    ensures
        spec_dedup(l.push(x)) == if spec_dedup(l).contains(x) {
            spec_dedup(l)
        } else {
            spec_dedup(l).push(x)
        },
{
    assert(l.push(x).drop_last() =~= l);
    assert(l.push(x).last() == x);
}

/// A deduplicated list holds no title twice, and holds exactly the titles
/// of the list it came from.
pub proof fn lemma_dedup_distinct(l: Seq<Seq<char>>)
    ensures
        forall|i: int, j: int|
            0 <= i < j < spec_dedup(l).len() ==> spec_dedup(l)[i] != spec_dedup(l)[j],
        forall|x: Seq<char>| #[trigger] spec_dedup(l).contains(x) <==> l.contains(x),
    decreases l.len(),
{
    if l.len() > 0 {
        let prev = l.drop_last();
        lemma_dedup_distinct(prev);
        let rest = spec_dedup(prev);
        let x = l.last();
        assert forall|y: Seq<char>| #[trigger] spec_dedup(l).contains(y) <==> l.contains(y) by {
            if spec_dedup(l).contains(y) {
                let i = choose|i: int| 0 <= i < spec_dedup(l).len() && spec_dedup(l)[i] == y;
                if rest.contains(x) || i < rest.len() {
                    assert(rest.contains(y)) by {
                        assert(rest[i] == y);
                    }
                    assert(prev.contains(y));
                    let j = choose|j: int| 0 <= j < prev.len() && prev[j] == y;
                    assert(l[j] == y);
                } else {
                    assert(y == x);
                    assert(l[l.len() - 1] == y);
                }
            }
            if l.contains(y) {
                let i = choose|i: int| 0 <= i < l.len() && l[i] == y;
                if i < l.len() - 1 {
                    assert(prev[i] == y);
                    assert(prev.contains(y));
                    assert(rest.contains(y));
                    if !rest.contains(x) {
                        let j = choose|j: int| 0 <= j < rest.len() && rest[j] == y;
                        assert(spec_dedup(l)[j] == y);
                    }
                } else {
                    assert(y == x);
                    if rest.contains(x) {
                        assert(spec_dedup(l).contains(y));
                    } else {
                        assert(spec_dedup(l)[spec_dedup(l).len() - 1] == y);
                    }
                }
            }
        }
        if !rest.contains(x) {
            assert forall|i: int, j: int|
                0 <= i < j < spec_dedup(l).len() implies spec_dedup(l)[i] != spec_dedup(l)[j] by {
                if j == spec_dedup(l).len() - 1 {
                    if spec_dedup(l)[i] == x {
                        assert(rest.contains(x)) by {
                            assert(rest[i] == x);
                        }
                    }
                }
            }
        }
    }
}

/// The canonical link targets named by the spans, in span order, before
/// deduplication: every span whose wikilink capture succeeds and is not a
/// file or image embed contributes its canonicalized target.
pub open spec fn spec_link_targets_over(s: Seq<char>, spans: Seq<(int, int)>) -> Seq<Seq<char>>
    decreases spans.len(),
{
    if spans.len() == 0 {
        Seq::empty()
    } else {
        let head: Seq<Seq<char>> = match wikilink_capture_at(
            s.subrange(spans[0].0, spans[0].1 + 2),
            0,
        ) {
            Some(c) => if file_or_image(c) {
                Seq::empty()
            } else {
                seq![spec_canonicalize(c)]
            },
            None => Seq::empty(),
        };
        head + spec_link_targets_over(s, spans.drop_first())
    }
}

/// The canonical category names named by the spans, in span order, before
/// deduplication.
pub open spec fn spec_categories_over(s: Seq<char>, spans: Seq<(int, int)>) -> Seq<Seq<char>>
    decreases spans.len(),
{
    if spans.len() == 0 {
        Seq::empty()
    } else {
        let head: Seq<Seq<char>> = match spec_category_capture(
            s.subrange(spans[0].0, spans[0].1 + 2),
        ) {
            Some(c) => seq![spec_canonicalize(c)],
            None => Seq::empty(),
        };
        head + spec_categories_over(s, spans.drop_first())
    }
}

/// The deduplicated canonical link targets of a text.
pub open spec fn spec_extract_links(s: Seq<char>) -> Seq<Seq<char>> {
    spec_dedup(spec_link_targets_over(s, spec_spans(s, 0)))
}

/// The deduplicated canonical category names of a text.
pub open spec fn spec_extract_categories(s: Seq<char>) -> Seq<Seq<char>> {
    spec_dedup(spec_categories_over(s, spec_spans(s, 0)))
}

/// Extracts the deduplicated canonical link targets of the text, in first
/// appearance order.
#[verifier::loop_isolation(false)]
pub fn extract_links(s: &Vec<char>) -> (r: Vec<Vec<char>>)
    ensures
        r.deep_view() == spec_extract_links(s@),
{
    let file = chars_of("File:");
    let image = chars_of("Image:");
    let mut acc: Vec<Vec<char>> = Vec::new();
    let ghost mut raw: Seq<Seq<char>> = Seq::empty();
    let mut i: usize = 0;
    proof {
        assert(spec_link_targets_over(s@, spec_spans(s@, 0)) =~= raw + spec_link_targets_over(
            s@,
            spec_spans(s@, 0),
        ));
    }
    while i < s.len()
        invariant
            0 <= i <= s.len(),
            acc.deep_view() == spec_dedup(raw),
            spec_link_targets_over(s@, spec_spans(s@, 0)) == raw + spec_link_targets_over(
                s@,
                spec_spans(s@, i as int),
            ),
        decreases s.len() - i,
    {
        let is_open = s[i] == '[' && i + 1 < s.len() && s[i + 1] == '[';
        if is_open {
            let mut k: usize = i + 2;
            let mut span_close: Option<usize> = None;
            while k < s.len()
                invariant
                    i + 2 <= k,
                    span_close is None,
                    span_end_from(s@, i as int, i + 2) == span_end_from(s@, i as int, k as int),
                decreases s.len() - k,
            {
                if s[k] == '[' {
                    break;
                }
                if s[k] == ']' {
                    if k + 1 < s.len() && s[k + 1] == ']' && k >= i + 3 {
                        proof {
                            assert(link_close_at(s@, k as int));
                        }
                        span_close = Some(k);
                    }
                    break;
                }
                k += 1;
            }
            match span_close {
                Some(j) => {
                    proof {
                        assert(span_end_from(s@, i as int, i + 2) == Some(j as int));
                        assert(spec_spans(s@, i as int) =~= seq![(i as int, j as int)]
                            + spec_spans(s@, j + 2));
                        assert((seq![(i as int, j as int)] + spec_spans(s@, j + 2)).drop_first()
                            =~= spec_spans(s@, j + 2));
                    }
                    let t = copy_range(s, i, j + 2);
                    match wikilink_capture_exec(&t, 0) {
                        Some(c) => {
                            let is_file = eq_at_exec(&c, 0, &file) || eq_at_exec(&c, 0, &image);
                            if !is_file {
                                let cv = canonicalize_chars(&c);
                                let dup = contains_seq(&acc, &cv);
                                let ghost old_dv = acc.deep_view();
                                proof {
                                    lemma_dedup_push(raw, cv@);
                                    raw = raw.push(cv@);
                                }
                                if !dup {
                                    acc.push(cv);
                                    proof {
                                        assert(cv.deep_view() =~= cv@);
                                        assert(acc.deep_view() =~= old_dv.push(cv@));
                                    }
                                }
                                proof {
                                    assert(spec_link_targets_over(s@, spec_spans(s@, i as int))
                                        =~= seq![spec_canonicalize(c@)]
                                        + spec_link_targets_over(s@, spec_spans(s@, j + 2)));
                                    assert(spec_link_targets_over(s@, spec_spans(s@, 0)) == raw
                                        + spec_link_targets_over(s@, spec_spans(s@, j + 2)));
                                }
                            } else {
                                proof {
                                    assert(spec_link_targets_over(s@, spec_spans(s@, i as int))
                                        =~= spec_link_targets_over(s@, spec_spans(s@, j + 2)));
                                }
                            }
                        },
                        None => {
                            proof {
                                assert(spec_link_targets_over(s@, spec_spans(s@, i as int))
                                    =~= spec_link_targets_over(s@, spec_spans(s@, j + 2)));
                            }
                        },
                    }
                    i = j + 2;
                },
                None => {
                    proof {
                        assert(span_end_from(s@, i as int, i + 2) is None || !(match span_end_from(
                            s@,
                            i as int,
                            i + 2,
                        ) {
                            Some(j2) => i + 2 <= j2 && j2 + 2 <= s@.len(),
                            None => false,
                        }));
                        assert(spec_spans(s@, i as int) == spec_spans(s@, i + 1));
                    }
                    i += 1;
                },
            }
        } else {
            proof {
                assert(!link_open_at(s@, i as int));
                assert(spec_spans(s@, i as int) == spec_spans(s@, i + 1));
            }
            i += 1;
        }
    }
    proof {
        assert(spec_spans(s@, s@.len() as int) =~= Seq::<(int, int)>::empty());
        assert(spec_link_targets_over(s@, spec_spans(s@, i as int)) =~= Seq::<Seq<char>>::empty());
        assert(raw + Seq::<Seq<char>>::empty() =~= raw);
    }
    acc
}

/// Extracts the deduplicated canonical category names of the text, in first
/// appearance order.
#[verifier::loop_isolation(false)]
pub fn extract_categories(s: &Vec<char>) -> (r: Vec<Vec<char>>)
    ensures
        r.deep_view() == spec_extract_categories(s@),
{
    let cat = chars_of("category:");
    proof {
        reveal_strlit("category:");
    }
    let mut acc: Vec<Vec<char>> = Vec::new();
    let ghost mut raw: Seq<Seq<char>> = Seq::empty();
    let mut i: usize = 0;
    proof {
        assert(spec_categories_over(s@, spec_spans(s@, 0)) =~= raw + spec_categories_over(
            s@,
            spec_spans(s@, 0),
        ));
    }
    while i < s.len()
        invariant
            0 <= i <= s.len(),
            cat@ == "category:"@,
            acc.deep_view() == spec_dedup(raw),
            spec_categories_over(s@, spec_spans(s@, 0)) == raw + spec_categories_over(
                s@,
                spec_spans(s@, i as int),
            ),
        decreases s.len() - i,
    {
        let is_open = s[i] == '[' && i + 1 < s.len() && s[i + 1] == '[';
        if is_open {
            let mut k: usize = i + 2;
            let mut span_close: Option<usize> = None;
            while k < s.len()
                invariant
                    i + 2 <= k,
                    span_close is None,
                    span_end_from(s@, i as int, i + 2) == span_end_from(s@, i as int, k as int),
                decreases s.len() - k,
            {
                if s[k] == '[' {
                    break;
                }
                if s[k] == ']' {
                    if k + 1 < s.len() && s[k + 1] == ']' && k >= i + 3 {
                        proof {
                            assert(link_close_at(s@, k as int));
                        }
                        span_close = Some(k);
                    }
                    break;
                }
                k += 1;
            }
            match span_close {
                Some(j) => {
                    proof {
                        assert(span_end_from(s@, i as int, i + 2) == Some(j as int));
                        assert(spec_spans(s@, i as int) =~= seq![(i as int, j as int)]
                            + spec_spans(s@, j + 2));
                        assert((seq![(i as int, j as int)] + spec_spans(s@, j + 2)).drop_first()
                            =~= spec_spans(s@, j + 2));
                    }
                    let t = copy_range(s, i, j + 2);
                    let capture: Option<Vec<char>> = if ascii_eq_at_exec(&t, 2, &cat) {
                        capture_of_exec(&t, 11)
                    } else {
                        proof {
                            assert(spec_category_capture(t@) is None);
                        }
                        None
                    };
                    match capture {
                        Some(c) => {
                            let cv = canonicalize_chars(&c);
                            let dup = contains_seq(&acc, &cv);
                            let ghost old_dv = acc.deep_view();
                            proof {
                                assert(spec_category_capture(t@) == Some(c@));
                                lemma_dedup_push(raw, cv@);
                                raw = raw.push(cv@);
                            }
                            if !dup {
                                acc.push(cv);
                                proof {
                                    assert(cv.deep_view() =~= cv@);
                                    assert(acc.deep_view() =~= old_dv.push(cv@));
                                }
                            }
                            proof {
                                assert(spec_categories_over(s@, spec_spans(s@, i as int))
                                    =~= seq![spec_canonicalize(c@)] + spec_categories_over(
                                    s@,
                                    spec_spans(s@, j + 2),
                                ));
                                assert(spec_categories_over(s@, spec_spans(s@, 0)) == raw
                                    + spec_categories_over(s@, spec_spans(s@, j + 2)));
                            }
                        },
                        None => {
                            proof {
                                assert(spec_category_capture(t@) is None);
                                assert(spec_categories_over(s@, spec_spans(s@, i as int))
                                    =~= spec_categories_over(s@, spec_spans(s@, j + 2)));
                            }
                        },
                    }
                    i = j + 2;
                },
                None => {
                    proof {
                        assert(spec_spans(s@, i as int) == spec_spans(s@, i + 1));
                    }
                    i += 1;
                },
            }
        } else {
            proof {
                assert(!link_open_at(s@, i as int));
                assert(spec_spans(s@, i as int) == spec_spans(s@, i + 1));
            }
            i += 1;
        }
    }
    proof {
        assert(spec_spans(s@, s@.len() as int) =~= Seq::<(int, int)>::empty());
        assert(spec_categories_over(s@, spec_spans(s@, i as int)) =~= Seq::<Seq<char>>::empty());
        assert(raw + Seq::<Seq<char>>::empty() =~= raw);
    }
    acc
}

/// The raw target of the first wikilink whose capture succeeds, scanning
/// from position `i`: what a redirect page redirects to.
pub open spec fn spec_redirect_target_from(s: Seq<char>, i: int) -> Option<Seq<char>>
    decreases s.len() - i,
{
    if i < 0 || i >= s.len() {
        None
    } else if link_open_at(s, i) && wikilink_capture_at(s, i) is Some {
        wikilink_capture_at(s, i)
    } else {
        spec_redirect_target_from(s, i + 1)
    }
}

/// The raw target of the first wikilink of the text.
pub open spec fn spec_redirect_target(s: Seq<char>) -> Option<Seq<char>> {
    spec_redirect_target_from(s, 0)
}

/// Extracts the raw target of the first wikilink of the text.
#[verifier::loop_isolation(false)]
pub fn redirect_target(s: &Vec<char>) -> (r: Option<Vec<char>>)
    ensures
        match r {
            Some(v) => spec_redirect_target(s@) == Some(v@),
            None => spec_redirect_target(s@) is None,
        },
{
    let mut i: usize = 0;
    while i < s.len()
        invariant
            0 <= i <= s.len(),
            spec_redirect_target(s@) == spec_redirect_target_from(s@, i as int),
        decreases s.len() - i,
    {
        if s[i] == '[' && i + 1 < s.len() && s[i + 1] == '[' {
            match wikilink_capture_exec(s, i) {
                Some(v) => {
                    return Some(v);
                },
                None => {
                },
            }
        } else {
            proof {
                assert(!link_open_at(s@, i as int));
            }
        }
        i += 1;
    }
    None
}

} // verus!
