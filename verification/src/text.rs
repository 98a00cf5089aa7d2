//! Text as a sequence of characters: trimming, splitting, searching, numbers and path names.
//!
//! Executable functions work on slices of characters, so that a position in the
//! text is an index into a sequence; `chars_of` and `string_of` lead in and out.

use vstd::prelude::*;
use vstd::slice::slice_subrange;

verus! {

broadcast use vstd::string::group_string_axioms;

/// `String::push` of std: it appends one character to the end of the string.
pub assume_specification[ String::push ](s: &mut String, c: char)
    ensures
        final(s)@ == old(s)@.push(c),
;

// ---------------------------------------------------------------------------
// Strings and slices of characters
// ---------------------------------------------------------------------------

/// The characters of a string, in order.
pub fn chars_of(s: &str) -> (v: Vec<char>)
    ensures
        v@ == s@,
{
    let mut v: Vec<char> = Vec::new();
    for c in it: s.chars()
        invariant
            v@ =~= it.seq().take(it.index()),
            it.seq() == s@,
    {
        v.push(c);
    }
    v
}

/// The string that holds the given characters.
pub fn string_of(v: &[char]) -> (s: String)
    ensures
        s@ == v@,
{
    let mut s = String::new();
    for i in 0..v.len()
        invariant
            s@ =~= v@.take(i as int),
    {
        s.push(v[i]);
    }
    s
}

/// A copy of a string slice.
pub fn copy_str(s: &str) -> (r: String)
    ensures
        r@ == s@,
{
    let mut r = String::new();
    r.append(s);
    r
}

/// Whether two texts hold the same characters.
pub fn same_text(a: &[char], b: &[char]) -> (r: bool)
    ensures
        r == (a@ == b@),
{
    if a.len() != b.len() {
        return false;
    }
    for i in 0..a.len()
        invariant
            a@.len() == b@.len(),
            forall|j: int| 0 <= j < i ==> a@[j] == b@[j],
    {
        if a[i] != b[i] {
            return false;
        }
    }
    assert(a@ =~= b@);
    true
}

/// Whether two strings hold the same characters.
pub fn same_str(a: &str, b: &str) -> (r: bool)
    ensures
        r == (a@ == b@),
{
    let x = chars_of(a);
    let y = chars_of(b);
    same_text(x.as_slice(), y.as_slice())
}

/// Whether `a` comes before `b` in the order of character codes, first difference first.
pub open spec fn text_less(a: Seq<char>, b: Seq<char>) -> bool
    decreases a.len(),
{
    if b.len() == 0 {
        false
    } else if a.len() == 0 {
        true
    } else {
        a[0] < b[0] || (a[0] == b[0] && text_less(a.drop_first(), b.drop_first()))
    }
}

/// The order of texts is total and strict.
pub proof fn lemma_text_less(a: Seq<char>, b: Seq<char>, c: Seq<char>)
    ensures
        text_less(a, b) ==> !text_less(b, a),
        text_less(a, b) ==> text_less(a, c) || text_less(c, b),
        text_less(a, b) || text_less(b, a) || a == b,
    decreases a.len() + b.len() + c.len(),
{
    if a.len() > 0 && b.len() > 0 && c.len() > 0 {
        lemma_text_less(a.drop_first(), b.drop_first(), c.drop_first());
        if a[0] == b[0] && a.drop_first() == b.drop_first() {
            assert(a =~= seq![a[0]] + a.drop_first());
            assert(b =~= seq![b[0]] + b.drop_first());
        }
    } else if a.len() > 0 && b.len() > 0 {
        lemma_text_less(a.drop_first(), b.drop_first(), c);
        if a[0] == b[0] && a.drop_first() == b.drop_first() {
            assert(a =~= seq![a[0]] + a.drop_first());
            assert(b =~= seq![b[0]] + b.drop_first());
        }
    } else if a.len() == 0 && b.len() == 0 {
        assert(a =~= b);
    }
}

/// Whether `a` comes before `b` in the order of character codes.
pub fn earlier_text(a: &[char], b: &[char]) -> (r: bool)
    ensures
        r == text_less(a@, b@),
{
    let mut i: usize = 0;
    assert(a@.skip(0) =~= a@);
    assert(b@.skip(0) =~= b@);
    while i < a.len() && i < b.len() && a[i] == b[i]
        invariant
            i <= a@.len(),
            i <= b@.len(),
            text_less(a@, b@) == text_less(a@.skip(i as int), b@.skip(i as int)),
        decreases a@.len() - i,
    {
        assert(a@.skip(i as int).drop_first() =~= a@.skip(i + 1));
        assert(b@.skip(i as int).drop_first() =~= b@.skip(i + 1));
        i = i + 1;
    }
    if i == b.len() {
        false
    } else if i == a.len() {
        true
    } else {
        a[i] < b[i]
    }
}

/// Whether `a` comes before `b` in the order of character codes.
pub fn earlier_str(a: &str, b: &str) -> (r: bool)
    ensures
        r == text_less(a@, b@),
{
    let x = chars_of(a);
    let y = chars_of(b);
    earlier_text(x.as_slice(), y.as_slice())
}

// ---------------------------------------------------------------------------
// Classes of characters
// ---------------------------------------------------------------------------

/// The Unicode property `White_Space`.
pub open spec fn is_white(c: char) -> bool {
    let n = c as u32;
    ||| 0x9 <= n <= 0xD
    ||| n == 0x20
    ||| n == 0x85
    ||| n == 0xA0
    ||| n == 0x1680
    ||| 0x2000 <= n <= 0x200A
    ||| n == 0x2028
    ||| n == 0x2029
    ||| n == 0x202F
    ||| n == 0x205F
    ||| n == 0x3000
}

pub open spec fn is_digit(c: char) -> bool {
    '0' <= c <= '9'
}

pub open spec fn lower_char(c: char) -> char {
    if 'A' <= c <= 'Z' {
        ((c as u8) + 32) as char
    } else {
        c
    }
}

pub open spec fn lower(s: Seq<char>) -> Seq<char> {
    s.map_values(|c: char| lower_char(c))
}

/// The kinds of character that are stripped from the ends of a text.
#[derive(Clone, Copy)]
pub enum Strip {
    White,
    Quote,
}

impl Strip {
    pub open spec fn holds(self, c: char) -> bool {
        match self {
            Strip::White => is_white(c),
            Strip::Quote => c == '"' || c == '\'',
        }
    }

    pub fn test(self, c: char) -> (r: bool)
        ensures
            r == self.holds(c),
    {
        match self {
            Strip::White => {
                let n = c as u32;
                (0x9 <= n && n <= 0xD) || n == 0x20 || n == 0x85 || n == 0xA0 || n == 0x1680 || (0x2000
                    <= n && n <= 0x200A) || n == 0x2028 || n == 0x2029 || n == 0x202F || n == 0x205F
                    || n == 0x3000
            },
            Strip::Quote => c == '"' || c == '\'',
        }
    }
}

/// The text in lower case, ASCII letters only.
pub fn to_lower(s: &[char]) -> (v: Vec<char>)
    ensures
        v@ == lower(s@),
{
    let mut v: Vec<char> = Vec::new();
    for i in 0..s.len()
        invariant
            v@ =~= lower(s@).take(i as int),
    {
        let c = s[i];
        if 'A' <= c && c <= 'Z' {
            let b = c as u8 + 32;
            v.push(b as char);
        } else {
            v.push(c);
        }
    }
    v
}

/// The text in lower case, ASCII letters only.
pub fn lower_string(s: &[char]) -> (r: String)
    ensures
        r@ == lower(s@),
{
    string_of(to_lower(s).as_slice())
}

/// Whether two texts are equal but for the case of ASCII letters.
pub fn same_ignoring_case(a: &[char], b: &[char]) -> (r: bool)
    ensures
        r == (lower(a@) == lower(b@)),
{
    let x = to_lower(a);
    let y = to_lower(b);
    same_text(x.as_slice(), y.as_slice())
}

// ---------------------------------------------------------------------------
// Trimming
// ---------------------------------------------------------------------------

/// `s` without the leading characters of kind `k`.
pub open spec fn strip_start(s: Seq<char>, k: Strip) -> Seq<char>
    decreases s.len(),
{
    if s.len() > 0 && k.holds(s[0]) {
        strip_start(s.drop_first(), k)
    } else {
        s
    }
}

/// `s` without the trailing characters of kind `k`.
pub open spec fn strip_end(s: Seq<char>, k: Strip) -> Seq<char>
    decreases s.len(),
{
    if s.len() > 0 && k.holds(s.last()) {
        strip_end(s.drop_last(), k)
    } else {
        s
    }
}

pub open spec fn strip_both(s: Seq<char>, k: Strip) -> Seq<char> {
    strip_end(strip_start(s, k), k)
}

pub open spec fn trim(s: Seq<char>) -> Seq<char> {
    strip_both(s, Strip::White)
}

/// The slice without the leading characters of kind `k`.
pub fn stripped_start(s: &[char], k: Strip) -> (r: &[char])
    ensures
        r@ == strip_start(s@, k),
{
    let mut i: usize = 0;
    assert(s@.skip(0) =~= s@);
    while i < s.len() && k.test(s[i])
        invariant
            i <= s@.len(),
            strip_start(s@, k) == strip_start(s@.skip(i as int), k),
        decreases s@.len() - i,
    {
        assert(s@.skip(i as int).drop_first() =~= s@.skip(i + 1));
        i = i + 1;
    }
    assert(s@.subrange(i as int, s@.len() as int) =~= s@.skip(i as int));
    slice_subrange(s, i, s.len())
}

/// The slice without the trailing characters of kind `k`.
pub fn stripped_end(s: &[char], k: Strip) -> (r: &[char])
    ensures
        r@ == strip_end(s@, k),
{
    let mut n: usize = s.len();
    assert(s@.take(n as int) =~= s@);
    while n > 0 && k.test(s[n - 1])
        invariant
            n <= s@.len(),
            strip_end(s@, k) == strip_end(s@.take(n as int), k),
        decreases n,
    {
        assert(s@.take(n as int).drop_last() =~= s@.take(n - 1));
        n = n - 1;
    }
    assert(s@.subrange(0, n as int) =~= s@.take(n as int));
    slice_subrange(s, 0, n)
}

/// The slice without the characters of kind `k` at both ends.
pub fn stripped(s: &[char], k: Strip) -> (r: &[char])
    ensures
        r@ == strip_both(s@, k),
{
    stripped_end(stripped_start(s, k), k)
}

/// The slice without the white space at both ends.
pub fn trimmed(s: &[char]) -> (r: &[char])
    ensures
        r@ == trim(s@),
{
    stripped(s, Strip::White)
}

// ---------------------------------------------------------------------------
// Searching
// ---------------------------------------------------------------------------

/// Whether `s` begins with `p`.
pub open spec fn starts_with(s: Seq<char>, p: Seq<char>) -> bool {
    p.len() <= s.len() && s.take(p.len() as int) == p
}

/// Whether `s` ends with `p`.
pub open spec fn ends_with(s: Seq<char>, p: Seq<char>) -> bool {
    p.len() <= s.len() && s.skip(s.len() - p.len()) == p
}

/// The position of the first `c` in `s`, or the length of `s` where there is none.
pub open spec fn find_char(s: Seq<char>, c: char) -> int
    decreases s.len(),
{
    if s.len() == 0 || s[0] == c {
        0
    } else {
        1 + find_char(s.drop_first(), c)
    }
}

/// The position at which `needle` first occurs in `s`.
pub open spec fn find_text(s: Seq<char>, needle: Seq<char>) -> Option<int>
    decreases s.len(),
{
    if starts_with(s, needle) {
        Some(0int)
    } else if s.len() == 0 {
        None
    } else {
        match find_text(s.drop_first(), needle) {
            Some(i) => Some(i + 1),
            None => None,
        }
    }
}

/// Whether the text begins with `p`.
pub fn begins_with(s: &[char], p: &[char]) -> (r: bool)
    ensures
        r == starts_with(s@, p@),
{
    if p.len() > s.len() {
        return false;
    }
    assert(s@.subrange(0, p@.len() as int) =~= s@.take(p@.len() as int));
    same_text(slice_subrange(s, 0, p.len()), p)
}

/// Whether the text begins with the string `p`.
pub fn begins_with_str(s: &[char], p: &str) -> (r: bool)
    ensures
        r == starts_with(s@, p@),
{
    let v = chars_of(p);
    begins_with(s, v.as_slice())
}

/// The position of the first `c`, or the length of the text where there is none.
pub fn position_of(s: &[char], c: char) -> (r: usize)
    ensures
        r == find_char(s@, c),
        r <= s@.len(),
        r < s@.len() ==> s@[r as int] == c,
        forall|j: int| 0 <= j < r ==> s@[j] != c,
{
    let mut i: usize = 0;
    assert(s@.skip(0) =~= s@);
    while i < s.len() && s[i] != c
        invariant
            i <= s@.len(),
            find_char(s@, c) == i + find_char(s@.skip(i as int), c),
            forall|j: int| 0 <= j < i ==> s@[j] != c,
        decreases s@.len() - i,
    {
        assert(s@.skip(i as int).drop_first() =~= s@.skip(i + 1));
        i = i + 1;
    }
    i
}

/// Whether the text holds the character `c`.
pub fn holds_char(s: &[char], c: char) -> (r: bool)
    ensures
        r == s@.contains(c),
{
    position_of(s, c) < s.len()
}

/// The position at which `needle` first occurs.
pub fn position_of_text(s: &[char], needle: &[char]) -> (r: Option<usize>)
    ensures
        match r {
            Some(i) => find_text(s@, needle@) == Some(i as int) && i + needle@.len() <= s@.len(),
            None => find_text(s@, needle@) is None,
        },
{
    let mut i: usize = 0;
    assert(s@.skip(0) =~= s@);
    loop
        invariant
            i <= s@.len(),
            find_text(s@, needle@) == match find_text(s@.skip(i as int), needle@) {
                Some(k) => Some(k + i),
                None => None,
            },
        decreases s@.len() - i,
    {
        assert(s@.subrange(i as int, s@.len() as int) =~= s@.skip(i as int));
        if begins_with(slice_subrange(s, i, s.len()), needle) {
            return Some(i);
        }
        if i == s.len() {
            return None;
        }
        assert(s@.skip(i as int).drop_first() =~= s@.skip(i + 1));
        i = i + 1;
    }
}

// ---------------------------------------------------------------------------
// Laws
// ---------------------------------------------------------------------------

/// `r` is what is left of `s` between `a` and `b`, and everything outside is of kind `k`.
pub open spec fn is_middle(r: Seq<char>, s: Seq<char>, k: Strip, a: int, b: int) -> bool {
    &&& 0 <= a <= b <= s.len()
    &&& r == s.subrange(a, b)
    &&& forall|i: int| 0 <= i < s.len() && (i < a || b <= i) ==> k.holds(#[trigger] s[i])
}

proof fn lemma_strip_start_middle(s: Seq<char>, k: Strip) -> (a: int)
    ensures
        is_middle(strip_start(s, k), s, k, a, s.len() as int),
        strip_start(s, k).len() > 0 ==> !k.holds(strip_start(s, k)[0]),
    decreases s.len(),
{
    if s.len() > 0 && k.holds(s[0]) {
        let a = lemma_strip_start_middle(s.drop_first(), k);
        assert(strip_start(s, k) =~= s.subrange(a + 1, s.len() as int));
        assert forall|i: int| 0 <= i < s.len() && i < a + 1 implies k.holds(#[trigger] s[i]) by {
            if i > 0 {
                assert(k.holds(s.drop_first()[i - 1]));
            }
        }
        a + 1
    } else {
        assert(s =~= s.subrange(0, s.len() as int));
        0
    }
}

proof fn lemma_strip_end_middle(s: Seq<char>, k: Strip) -> (b: int)
    ensures
        is_middle(strip_end(s, k), s, k, 0, b),
        strip_end(s, k).len() > 0 ==> !k.holds(strip_end(s, k).last()),
    decreases s.len(),
{
    if s.len() > 0 && k.holds(s.last()) {
        let b = lemma_strip_end_middle(s.drop_last(), k);
        assert(strip_end(s, k) =~= s.subrange(0, b));
        assert forall|i: int| 0 <= i < s.len() && b <= i implies k.holds(#[trigger] s[i]) by {
            if i < s.len() - 1 {
                assert(k.holds(s.drop_last()[i]));
            }
        }
        b
    } else {
        assert(s =~= s.subrange(0, s.len() as int));
        s.len() as int
    }
}

/// Stripping takes characters of the kind off both ends, and only those; what is left neither
/// starts nor ends with one.
pub proof fn law_strip_takes_ends(s: Seq<char>, k: Strip)
    ensures
        exists|a: int, b: int| is_middle(strip_both(s, k), s, k, a, b),
        strip_both(s, k).len() > 0 ==> !k.holds(strip_both(s, k)[0]) && !k.holds(strip_both(s, k).last()),
{
    let t = strip_start(s, k);
    let a = lemma_strip_start_middle(s, k);
    let b = lemma_strip_end_middle(t, k);
    assert(strip_both(s, k) =~= s.subrange(a, a + b));
    assert forall|i: int| 0 <= i < s.len() && (i < a || a + b <= i) implies k.holds(#[trigger] s[i]) by {
        if i >= a {
            assert(k.holds(t[i - a]));
        }
    }
    assert(is_middle(strip_both(s, k), s, k, a, a + b));
}

/// What has no character of the kind at its ends is left as it is by stripping.
pub proof fn law_strip_leaves_middle(s: Seq<char>, k: Strip)
    requires
        s.len() > 0 ==> !k.holds(s[0]) && !k.holds(s.last()),
    ensures
        strip_both(s, k) == s,
{
}

/// White space among the characters of one byte: the space, and the five that move the
/// position; of the others those that Unicode lists.
pub proof fn law_white_space(c: char)
    ensures
        (c as u32) < 0x80 ==> (is_white(c) <==> c == ' ' || c == '\t' || c == '\n' || c == '\r' || c as u32 == 11
            || c as u32 == 12),
        0x80 <= (c as u32) < 0x2000 ==> (is_white(c) <==> c as u32 == 133 || c as u32 == 160 || c as u32 == 5760),
        0x2000 <= (c as u32) ==> (is_white(c) <==> (c as u32) <= 8202 || c as u32 == 8232 || c as u32 == 8233
            || c as u32 == 8239 || c as u32 == 8287 || c as u32 == 12288),
        Strip::White.holds(c) == is_white(c),
        Strip::Quote.holds(c) <==> c as u32 == 34 || c as u32 == 39,
{
}

/// Lower case changes the letters from A to Z, by 32 places, and nothing else; doing it twice
/// changes nothing more.
pub proof fn law_lower_case(s: Seq<char>)
    ensures
        lower(s).len() == s.len(),
        forall|i: int|
            0 <= i < s.len() ==> #[trigger] lower(s)[i] as u32 == s[i] as u32 + (if 65 <= s[i] as u32 <= 90 {
                32int
            } else {
                0
            }),
        lower(lower(s)) == lower(s),
{
    assert(lower(lower(s)) =~= lower(s));
}

/// Texts that begin alike are ordered by the first character in which they differ, and where
/// one begins the other, it comes first.
pub proof fn law_order_by_first_difference(a: Seq<char>, b: Seq<char>, k: int)
    requires
        0 <= k <= a.len(),
        0 <= k <= b.len(),
        forall|i: int| 0 <= i < k ==> #[trigger] a[i] == b[i],
    ensures
        k < a.len() && k < b.len() && a[k] < b[k] ==> text_less(a, b) && !text_less(b, a),
        k == a.len() && k < b.len() ==> text_less(a, b) && !text_less(b, a),
        k == a.len() && k == b.len() ==> !text_less(a, b),
    decreases k,
{
    if k > 0 {
        assert(a[0] == b[0]);
        let (c, d) = (a.drop_first(), b.drop_first());
        assert forall|i: int| 0 <= i < k - 1 implies #[trigger] c[i] == d[i] by {
            assert(a[i + 1] == b[i + 1]);
        }
        law_order_by_first_difference(c, d, k - 1);
    }
}

/// The position of a character is that of the first one.
pub proof fn law_first_char(s: Seq<char>, c: char)
    ensures
        0 <= find_char(s, c) <= s.len(),
        find_char(s, c) < s.len() ==> s[find_char(s, c)] == c,
        forall|i: int| 0 <= i < find_char(s, c) ==> #[trigger] s[i] != c,
    decreases s.len(),
{
    if s.len() > 0 && s[0] != c {
        let t = s.drop_first();
        law_first_char(t, c);
        assert forall|i: int| 0 <= i < find_char(s, c) implies #[trigger] s[i] != c by {
            if i > 0 {
                assert(t[i - 1] != c);
            }
        }
    }
}

/// A text begins with another where it is that text with something behind it, and ends with it
/// where it is that text with something before it.
pub proof fn law_begins_and_ends(p: Seq<char>, r: Seq<char>, s: Seq<char>)
    ensures
        starts_with(p + r, p),
        ends_with(r + p, p),
        starts_with(s, p) ==> s == p + s.subrange(p.len() as int, s.len() as int),
        ends_with(s, p) ==> s == s.subrange(0, s.len() - p.len()) + p,
{
    assert((p + r).take(p.len() as int) =~= p);
    assert((r + p).skip(r.len() as int) =~= p);
    if starts_with(s, p) {
        assert(s =~= s.take(p.len() as int) + s.subrange(p.len() as int, s.len() as int));
    }
    if ends_with(s, p) {
        assert(s =~= s.subrange(0, s.len() - p.len()) + s.skip(s.len() - p.len()));
    }
}

/// Whether `needle` stands in `s` at `i`.
pub open spec fn stands_at(s: Seq<char>, needle: Seq<char>, i: int) -> bool {
    0 <= i && i + needle.len() <= s.len() && s.subrange(i, i + needle.len()) == needle
}

/// A text is found where it first stands, and nowhere where it does not stand.
pub proof fn law_first_occurrence(s: Seq<char>, needle: Seq<char>)
    ensures
        match find_text(s, needle) {
            Some(i) => stands_at(s, needle, i) && forall|j: int| #[trigger] stands_at(s, needle, j) ==> i <= j,
            None => forall|j: int| !#[trigger] stands_at(s, needle, j),
        },
    decreases s.len(),
{
    assert(stands_at(s, needle, 0) <==> starts_with(s, needle)) by {
        if needle.len() <= s.len() {
            assert(s.subrange(0, needle.len() as int) =~= s.take(needle.len() as int));
        }
    }
    if !starts_with(s, needle) && s.len() > 0 {
        let t = s.drop_first();
        law_first_occurrence(t, needle);
        assert forall|j: int| #[trigger] stands_at(s, needle, j) implies j > 0 && stands_at(t, needle, j - 1) by {
            assert(t.subrange(j - 1, j - 1 + needle.len()) =~= s.subrange(j, j + needle.len()));
        }
        if let Some(i) = find_text(t, needle) {
            assert(t.subrange(i, i + needle.len()) =~= s.subrange(i + 1, i + 1 + needle.len()));
        }
    }
}

} // verus!
