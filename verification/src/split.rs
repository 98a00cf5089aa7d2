//! Splitting text: fields, lines, words and the last name of a path.

use crate::text::{
    find_char, is_white, law_first_char, position_of, strip_start, stripped_start, Strip,
};
use vstd::prelude::*;
use vstd::slice::slice_subrange;

verus! {

/// The texts that a list of slices holds.
pub open spec fn texts(v: Seq<&[char]>) -> Seq<Seq<char>> {
    Seq::new(v.len(), |i: int| v[i]@)
}

pub proof fn lemma_texts_push(v: Seq<&[char]>, x: &[char])
    ensures
        texts(v.push(x)) == texts(v).push(x@),
{
    assert(texts(v.push(x)) =~= texts(v).push(x@));
}

// ---------------------------------------------------------------------------
// Fields
// ---------------------------------------------------------------------------

/// The fields of `s` between the characters `sep`.
pub open spec fn fields(s: Seq<char>, sep: char) -> Seq<Seq<char>>
    decreases s.len(),
{
    let i = find_char(s, sep);
    if 0 <= i < s.len() {
        seq![s.take(i)] + fields(s.skip(i + 1), sep)
    } else {
        seq![s]
    }
}

/// The text before and the text after the first `sep`.
pub open spec fn cut(s: Seq<char>, sep: char) -> Option<(Seq<char>, Seq<char>)> {
    let i = find_char(s, sep);
    if 0 <= i < s.len() {
        Some((s.take(i), s.skip(i + 1)))
    } else {
        None
    }
}

/// The fields of the text between the characters `sep`.
pub fn split_fields(s: &[char], sep: char) -> (out: Vec<&[char]>)
    ensures
        texts(out@) == fields(s@, sep),
{
    let mut out: Vec<&[char]> = Vec::new();
    let mut rest: &[char] = s;
    assert(texts(out@) + fields(rest@, sep) =~= fields(s@, sep));
    loop
        invariant
            texts(out@) + fields(rest@, sep) == fields(s@, sep),
        decreases rest@.len(),
    {
        let i = position_of(rest, sep);
        let ghost before = out@;
        if i == rest.len() {
            out.push(rest);
            proof {
                lemma_texts_push(before, rest);
                assert(texts(out@) =~= texts(before) + fields(rest@, sep));
            }
            return out;
        }
        let head = slice_subrange(rest, 0, i);
        let tail = slice_subrange(rest, i + 1, rest.len());
        out.push(head);
        proof {
            lemma_texts_push(before, head);
            assert(head@ =~= rest@.take(i as int));
            assert(tail@ =~= rest@.skip(i + 1));
            assert(texts(out@) + fields(tail@, sep) =~= texts(before) + fields(rest@, sep));
        }
        rest = tail;
    }
}

/// The text before and the text after the first `sep`.
pub fn split_once(s: &[char], sep: char) -> (r: Option<(&[char], &[char])>)
    ensures
        match r {
            Some((a, b)) => cut(s@, sep) == Some((a@, b@)),
            None => cut(s@, sep) is None,
        },
{
    let i = position_of(s, sep);
    if i == s.len() {
        return None;
    }
    let a = slice_subrange(s, 0, i);
    let b = slice_subrange(s, i + 1, s.len());
    assert(a@ =~= s@.take(i as int));
    assert(b@ =~= s@.skip(i + 1));
    Some((a, b))
}

// ---------------------------------------------------------------------------
// Lines
// ---------------------------------------------------------------------------

/// A line that a newline ended, without the carriage return before the newline.
pub open spec fn strip_cr(s: Seq<char>) -> Seq<char> {
    if s.len() > 0 && s.last() == '\r' {
        s.drop_last()
    } else {
        s
    }
}

/// The lines of `s`. A newline ends a line, a carriage return before it belongs to the
/// ending, and what follows the last newline is a line only where it is not empty.
pub open spec fn lines(s: Seq<char>) -> Seq<Seq<char>>
    decreases s.len(),
{
    let i = find_char(s, '\n');
    if s.len() == 0 {
        Seq::empty()
    } else if 0 <= i < s.len() {
        seq![strip_cr(s.take(i))] + lines(s.skip(i + 1))
    } else {
        seq![s]
    }
}

/// The lines of the text.
pub fn split_lines(s: &[char]) -> (out: Vec<&[char]>)
    ensures
        texts(out@) == lines(s@),
{
    let mut out: Vec<&[char]> = Vec::new();
    let mut rest: &[char] = s;
    assert(texts(out@) + lines(rest@) =~= lines(s@));
    while rest.len() > 0
        invariant
            texts(out@) + lines(rest@) == lines(s@),
        decreases rest@.len(),
    {
        let i = position_of(rest, '\n');
        let ghost before = out@;
        if i == rest.len() {
            out.push(rest);
            proof {
                lemma_texts_push(before, rest);
                assert(texts(out@) =~= texts(before) + lines(rest@));
            }
            return out;
        }
        let end: usize = if i > 0 && rest[i - 1] == '\r' {
            i - 1
        } else {
            i
        };
        let head = slice_subrange(rest, 0, end);
        let tail = slice_subrange(rest, i + 1, rest.len());
        out.push(head);
        proof {
            lemma_texts_push(before, head);
            assert(head@ =~= strip_cr(rest@.take(i as int)));
            assert(tail@ =~= rest@.skip(i + 1));
            assert(texts(out@) + lines(tail@) =~= texts(before) + lines(rest@));
        }
        rest = tail;
    }
    assert(texts(out@) + lines(rest@) =~= texts(out@));
    out
}

// ---------------------------------------------------------------------------
// Words
// ---------------------------------------------------------------------------

/// The number of characters before the first white space.
pub open spec fn word_len(s: Seq<char>) -> int
    decreases s.len(),
{
    if s.len() == 0 || is_white(s[0]) {
        0
    } else {
        1 + word_len(s.drop_first())
    }
}

pub proof fn lemma_word_len(s: Seq<char>)
    ensures
        0 <= word_len(s) <= s.len(),
        s.len() > 0 && !is_white(s[0]) ==> word_len(s) > 0,
    decreases s.len(),
{
    if s.len() > 0 && !is_white(s[0]) {
        lemma_word_len(s.drop_first());
    }
}

pub proof fn lemma_strip_start(s: Seq<char>, k: Strip)
    ensures
        strip_start(s, k).len() <= s.len(),
        strip_start(s, k).len() > 0 ==> !k.holds(strip_start(s, k)[0]),
    decreases s.len(),
{
    if s.len() > 0 && k.holds(s[0]) {
        lemma_strip_start(s.drop_first(), k);
    }
}

/// The words of `s`: its longest runs of characters that are not white space.
pub open spec fn words(s: Seq<char>) -> Seq<Seq<char>>
    decreases s.len(),
    via words_decreases
{
    let t = strip_start(s, Strip::White);
    if t.len() == 0 {
        Seq::empty()
    } else {
        seq![t.take(word_len(t))] + words(t.skip(word_len(t)))
    }
}

#[via_fn]
proof fn words_decreases(s: Seq<char>) {
    let t = strip_start(s, Strip::White);
    lemma_strip_start(s, Strip::White);
    lemma_word_len(t);
}

/// The number of characters before the first white space.
pub fn length_of_word(s: &[char]) -> (r: usize)
    ensures
        r == word_len(s@),
        r <= s@.len(),
{
    let mut i: usize = 0;
    assert(s@.skip(0) =~= s@);
    while i < s.len() && !Strip::White.test(s[i])
        invariant
            i <= s@.len(),
            word_len(s@) == i + word_len(s@.skip(i as int)),
        decreases s@.len() - i,
    {
        assert(s@.skip(i as int).drop_first() =~= s@.skip(i + 1));
        i = i + 1;
    }
    i
}

/// The words of the text.
pub fn split_words(s: &[char]) -> (out: Vec<&[char]>)
    ensures
        texts(out@) == words(s@),
{
    let mut out: Vec<&[char]> = Vec::new();
    let mut rest: &[char] = stripped_start(s, Strip::White);
    proof {
        lemma_strip_start_twice(s@, Strip::White);
        assert(texts(out@) + words(rest@) =~= words(s@));
    }
    while rest.len() > 0
        invariant
            texts(out@) + words(rest@) == words(s@),
            rest@ == strip_start(rest@, Strip::White),
        decreases rest@.len(),
    {
        let n = length_of_word(rest);
        let ghost before = out@;
        let head = slice_subrange(rest, 0, n);
        let tail = slice_subrange(rest, n, rest.len());
        let next = stripped_start(tail, Strip::White);
        out.push(head);
        proof {
            lemma_texts_push(before, head);
            lemma_strip_start(rest@, Strip::White);
            lemma_word_len(rest@);
            lemma_strip_start(tail@, Strip::White);
            lemma_strip_start_twice(tail@, Strip::White);
            assert(head@ =~= rest@.take(n as int));
            assert(tail@ =~= rest@.skip(n as int));
            assert(words(next@) == words(tail@));
            assert(texts(out@) + words(next@) =~= texts(before) + words(rest@));
        }
        rest = next;
    }
    assert(texts(out@) + words(rest@) =~= texts(out@));
    out
}

pub proof fn lemma_strip_start_twice(s: Seq<char>, k: Strip)
    ensures
        strip_start(strip_start(s, k), k) == strip_start(s, k),
    decreases s.len(),
{
    if s.len() > 0 && k.holds(s[0]) {
        lemma_strip_start_twice(s.drop_first(), k);
    }
}

// ---------------------------------------------------------------------------
// The last name of a path
// ---------------------------------------------------------------------------

/// Whether a part of a path is passed over: nothing stands between two slashes, or one dot.
pub open spec fn is_void_part(p: Seq<char>) -> bool {
    p.len() == 0 || p == seq!['.']
}

/// The last part that is not passed over.
pub open spec fn last_part(parts: Seq<Seq<char>>) -> Option<Seq<char>>
    decreases parts.len(),
{
    if parts.len() == 0 {
        None
    } else if is_void_part(parts.last()) {
        last_part(parts.drop_last())
    } else {
        Some(parts.last())
    }
}

/// The final name of a slash-separated path; a path that ends in `..` has none.
pub open spec fn file_name(s: Seq<char>) -> Option<Seq<char>> {
    match last_part(fields(s, '/')) {
        Some(p) => if p == seq!['.', '.'] {
            None
        } else {
            Some(p)
        },
        None => None,
    }
}

/// The final name of a path, or the whole text where the path has none.
pub open spec fn base_name(s: Seq<char>) -> Seq<char> {
    match file_name(s) {
        Some(p) => p,
        None => s,
    }
}

/// The final name of a slash-separated path; a path that ends in `..` has none.
pub fn name_in_path(s: &[char]) -> (r: Option<&[char]>)
    ensures
        match r {
            Some(p) => file_name(s@) == Some(p@),
            None => file_name(s@) is None,
        },
{
    let parts = split_fields(s, '/');
    let ghost all = texts(parts@);
    let mut n: usize = parts.len();
    assert(all.take(n as int) =~= all);
    while n > 0
        invariant
            n <= parts@.len(),
            all == texts(parts@),
            all == fields(s@, '/'),
            last_part(all) == last_part(all.take(n as int)),
        decreases n,
    {
        let p = parts[n - 1];
        assert(all.take(n as int).last() == p@);
        let is_dot = p.len() == 1 && p[0] == '.';
        assert(is_dot == (p@ == seq!['.'])) by {
            assert(is_dot ==> p@ =~= seq!['.']);
        }
        if p.len() > 0 && !is_dot {
            let is_up = p.len() == 2 && p[0] == '.' && p[1] == '.';
            assert(is_up == (p@ == seq!['.', '.'])) by {
                assert(is_up ==> p@ =~= seq!['.', '.']);
            }
            if is_up {
                return None;
            }
            return Some(p);
        }
        assert(all.take(n as int).drop_last() =~= all.take(n - 1));
        n = n - 1;
    }
    None
}

/// The final name of a path, or the whole text where the path has none.
pub fn base_of_path(s: &[char]) -> (r: &[char])
    ensures
        r@ == base_name(s@),
{
    match name_in_path(s) {
        Some(p) => p,
        None => s,
    }
}

// ---------------------------------------------------------------------------
// Laws
// ---------------------------------------------------------------------------

/// Fields with a character between them.
pub open spec fn joined_by(list: Seq<Seq<char>>, sep: char) -> Seq<char>
    decreases list.len(),
{
    if list.len() == 0 {
        Seq::empty()
    } else if list.len() == 1 {
        list[0]
    } else {
        list[0].push(sep) + joined_by(list.drop_first(), sep)
    }
}

/// The fields of a text with the separator between them are the text, and no field holds it.
pub proof fn law_fields_join(s: Seq<char>, sep: char)
    ensures
        fields(s, sep).len() > 0,
        joined_by(fields(s, sep), sep) == s,
        forall|k: int| 0 <= k < fields(s, sep).len() ==> !(#[trigger] fields(s, sep)[k]).contains(sep),
    decreases s.len(),
{
    let i = find_char(s, sep);
    law_first_char(s, sep);
    if i < s.len() {
        let rest = fields(s.skip(i + 1), sep);
        law_fields_join(s.skip(i + 1), sep);
        let all = fields(s, sep);
        assert(all.drop_first() =~= rest);
        assert(joined_by(all, sep) =~= s);
        assert forall|k: int| 0 <= k < all.len() implies !(#[trigger] all[k]).contains(sep) by {
            if k > 0 {
                assert(all[k] == rest[k - 1]);
            }
        }
    }
}

/// The fields of fields with the separator between them are these fields.
pub proof fn law_fields_of_joined(list: Seq<Seq<char>>, sep: char)
    requires
        list.len() > 0,
        forall|k: int| 0 <= k < list.len() ==> !(#[trigger] list[k]).contains(sep),
    ensures
        fields(joined_by(list, sep), sep) == list,
    decreases list.len(),
{
    let s = joined_by(list, sep);
    law_first_char(s, sep);
    if list.len() == 1 {
        assert(!list[0].contains(sep));
        assert(fields(s, sep) =~= list);
    } else {
        let head = list[0];
        let rest = list.drop_first();
        assert forall|k: int| 0 <= k < rest.len() implies !(#[trigger] rest[k]).contains(sep) by {
            assert(rest[k] == list[k + 1]);
        }
        law_fields_of_joined(rest, sep);
        let n = head.len() as int;
        assert(s[n] == sep);
        assert forall|k: int| 0 <= k < n implies s[k] != sep by {
            assert(s[k] == head[k]);
        }
        assert(find_char(s, sep) == n);
        assert(s.take(n) =~= head);
        assert(s.skip(n + 1) =~= joined_by(rest, sep));
        assert(fields(s, sep) =~= list);
    }
}

/// A text is cut at the first separator, where it has one.
pub proof fn law_cut_at_first(a: Seq<char>, sep: char, b: Seq<char>)
    requires
        !a.contains(sep),
    ensures
        cut(a.push(sep) + b, sep) == Some((a, b)),
        cut(a, sep) is None,
{
    let s = a.push(sep) + b;
    law_first_char(s, sep);
    law_first_char(a, sep);
    assert(s[a.len() as int] == sep);
    assert forall|k: int| 0 <= k < a.len() implies s[k] != sep by {
        assert(s[k] == a[k]);
    }
    assert(find_char(s, sep) == a.len());
    assert(s.take(a.len() as int) =~= a);
    assert(s.skip(a.len() as int + 1) =~= b);
}

/// A newline ends a line, with the carriage return before it; what follows is the lines of the
/// rest. A text without a newline is one line, and no text is none.
pub proof fn law_lines(a: Seq<char>, b: Seq<char>)
    requires
        !a.contains('\n'),
    ensures
        a.len() > 0 ==> lines(a) == seq![a],
        lines(Seq::<char>::empty()).len() == 0,
        a.len() == 0 || a.last() != '\r' ==> lines(a.push('\n') + b) == seq![a] + lines(b),
        lines(a.push('\r').push('\n') + b) == seq![a] + lines(b),
{
    law_first_char(a, '\n');
    let s = a.push('\n') + b;
    law_first_char(s, '\n');
    assert(s[a.len() as int] == '\n');
    assert forall|k: int| 0 <= k < a.len() implies s[k] != '\n' by {
        assert(s[k] == a[k]);
    }
    assert(s.take(a.len() as int) =~= a);
    assert(s.skip(a.len() as int + 1) =~= b);
    let c = a.push('\r');
    let t = c.push('\n') + b;
    law_first_char(t, '\n');
    assert(t[c.len() as int] == '\n');
    assert forall|k: int| 0 <= k < c.len() implies t[k] != '\n' by {
        if k < a.len() {
            assert(t[k] == a[k]);
        }
    }
    assert(t.take(c.len() as int) =~= c);
    assert(c.drop_last() =~= a);
    assert(t.skip(c.len() as int + 1) =~= b);
}

proof fn lemma_word_ends(w: Seq<char>, rest: Seq<char>)
    requires
        forall|i: int| 0 <= i < w.len() ==> !is_white(#[trigger] w[i]),
        rest.len() == 0 || is_white(rest[0]),
    ensures
        word_len(w + rest) == w.len(),
    decreases w.len(),
{
    if w.len() == 0 {
        assert(w + rest =~= rest);
    } else {
        assert(!is_white(w[0]));
        assert((w + rest).drop_first() =~= w.drop_first() + rest);
        assert forall|i: int| 0 <= i < w.drop_first().len() implies !is_white(#[trigger] w.drop_first()[i]) by {
            assert(!is_white(w[i + 1]));
        }
        lemma_word_ends(w.drop_first(), rest);
    }
}

/// White space before a text does not change its words; a run of other characters up to white
/// space or the end is a word, and the words of what follows come after it.
pub proof fn law_words(w: Seq<char>, c: char, s: Seq<char>)
    requires
        is_white(c),
        w.len() > 0,
        forall|i: int| 0 <= i < w.len() ==> !is_white(#[trigger] w[i]),
    ensures
        words(Seq::<char>::empty()).len() == 0,
        words(seq![c] + s) == words(s),
        words(w) == seq![w],
        words(w.push(c) + s) == seq![w] + words(s),
{
    let empty = Seq::<char>::empty();
    assert(strip_start(empty, Strip::White).len() == 0);
    let t = seq![c] + s;
    assert(t.drop_first() =~= s);
    assert(strip_start(t, Strip::White) == strip_start(s, Strip::White));
    assert(!is_white(w[0]));
    assert(w + empty =~= w);
    lemma_word_ends(w, empty);
    assert(w.take(w.len() as int) =~= w);
    assert(w.skip(w.len() as int) =~= empty);
    assert(words(empty) =~= Seq::<Seq<char>>::empty());
    assert(words(w) =~= seq![w]);
    let u = w.push(c) + s;
    assert(u =~= w + t);
    assert(u[0] == w[0]);
    lemma_word_ends(w, t);
    assert(u.take(w.len() as int) =~= w);
    assert(u.skip(w.len() as int) =~= t);
}

/// Whether a part of a path is a name: not empty, without a slash, and not one of the dots.
pub open spec fn is_name(p: Seq<char>) -> bool {
    &&& p.len() > 0
    &&& !p.contains('/')
    &&& p != seq!['.']
    &&& p != seq!['.', '.']
}

proof fn lemma_fields_append(dir: Seq<char>, p: Seq<char>)
    requires
        !p.contains('/'),
    ensures
        fields(dir.push('/') + p, '/') == fields(dir, '/').push(p),
    decreases dir.len(),
{
    let s = dir.push('/') + p;
    let i = find_char(dir, '/');
    law_first_char(dir, '/');
    law_first_char(s, '/');
    law_first_char(p, '/');
    assert(s[dir.len() as int] == '/');
    assert forall|k: int| 0 <= k < i implies s[k] != '/' by {
        assert(s[k] == dir[k]);
    }
    if i < dir.len() {
        assert(s[i] == '/');
        assert(find_char(s, '/') == i);
        let rest = dir.skip(i + 1);
        lemma_fields_append(rest, p);
        assert(s.skip(i + 1) =~= rest.push('/') + p);
        assert(s.take(i) =~= dir.take(i));
        assert(fields(s, '/') =~= fields(dir, '/').push(p));
    } else {
        assert(find_char(s, '/') == dir.len());
        assert(s.take(dir.len() as int) =~= dir);
        assert(s.skip(dir.len() as int + 1) =~= p);
        assert(fields(p, '/') =~= seq![p]);
        assert(fields(dir, '/') =~= seq![dir]);
        assert(fields(s, '/') =~= fields(dir, '/').push(p));
    }
}

/// The last field of a path is what follows its last slash.
pub proof fn law_last_field(dir: Seq<char>, p: Seq<char>)
    requires
        !p.contains('/'),
    ensures
        fields(dir.push('/') + p, '/').last() == p,
        fields(p, '/').last() == p,
{
    lemma_fields_append(dir, p);
    law_first_char(p, '/');
}

/// The last name of a path is what follows its last slash; slashes at the end and single dots
/// are passed over, and a path that ends in two dots has no last name.
pub proof fn law_last_name(dir: Seq<char>, p: Seq<char>)
    ensures
        is_name(p) ==> file_name(p) == Some(p) && base_name(p) == p,
        is_name(p) ==> file_name(dir.push('/') + p) == Some(p) && base_name(dir.push('/') + p) == p,
        file_name(dir.push('/')) == file_name(dir),
        file_name(dir.push('/').push('.')) == file_name(dir),
        file_name(dir.push('/').push('.').push('.')) is None,
        base_name(dir.push('/').push('.').push('.')) == dir.push('/').push('.').push('.'),
        file_name(Seq::<char>::empty()) is None,
{
    let empty = Seq::<char>::empty();
    let one = seq!['.'];
    let two = seq!['.', '.'];
    reveal_with_fuel(last_part, 2);
    law_first_char(p, '/');
    law_first_char(empty, '/');
    lemma_fields_append(dir, empty);
    assert(dir.push('/') + empty =~= dir.push('/'));
    lemma_fields_append(dir, one);
    assert(dir.push('/') + one =~= dir.push('/').push('.'));
    lemma_fields_append(dir, two);
    assert(dir.push('/') + two =~= dir.push('/').push('.').push('.'));
    assert(fields(dir, '/').push(empty).drop_last() =~= fields(dir, '/'));
    assert(fields(dir, '/').push(one).drop_last() =~= fields(dir, '/'));
    assert(two != one) by {
        assert(two.len() == 2 && one.len() == 1);
    }
    assert(fields(empty, '/') =~= seq![empty]);
    assert(seq![empty].drop_last() =~= Seq::<Seq<char>>::empty());
    if is_name(p) {
        lemma_fields_append(dir, p);
        assert(fields(p, '/') =~= seq![p]);
    }
}

} // verus!
