//! Text primitives: scanning, trimming, splitting, parsing and formatting.
//!
//! Every text is handled as its sequence of characters, so the contracts speak
//! of `Seq<char>` and never of byte offsets.
use vstd::prelude::*;
use vstd::slice::slice_subrange;

verus! {

/// `String::push`: appends one character to the end of the string.
pub assume_specification[ String::push ](s: &mut String, c: char)
    ensures
        final(s)@ == old(s)@.push(c),
;

/// The characters of a string, in order.
pub fn to_chars(s: &str) -> (r: Vec<char>)
    ensures
        r@ == s@,
{
    let mut out: Vec<char> = Vec::new();
    for c in it: s.chars()
        invariant
            it.seq() == s@,
            out@ == s@.take(it.index() as int),
    {
        out.push(c);
        proof {
            assert(s@.take(it.index() as int + 1) =~= s@.take(it.index() as int).push(c));
        }
    }
    proof {
        assert(s@.take(s@.len() as int) =~= s@);
    }
    out
}

/// The string made of the given characters.
pub fn from_chars(chars: &[char]) -> (r: String)
    ensures
        r@ == chars@,
{
    let mut out = String::new();
    let mut i: usize = 0;
    while i < chars.len()
        invariant
            i <= chars@.len(),
            out@ == chars@.take(i as int),
        decreases chars@.len() - i,
    {
        out.push(chars[i]);
        i = i + 1;
        proof {
            assert(chars@.take(i as int) =~= chars@.take(i - 1).push(chars@[i - 1]));
        }
    }
    proof {
        assert(chars@.take(chars@.len() as int) =~= chars@);
    }
    out
}

/// Appends `piece` to `out`.
pub fn append(out: &mut String, piece: &str)
    ensures
        final(out)@ == old(out)@ + piece@,
{
    for c in it: piece.chars()
        invariant
            it.seq() == piece@,
            out@ == old(out)@ + piece@.take(it.index() as int),
    {
        out.push(c);
        proof {
            assert(piece@.take(it.index() as int + 1) =~= piece@.take(it.index() as int).push(c));
            assert(out@ =~= old(out)@ + piece@.take(it.index() as int + 1));
        }
    }
    proof {
        assert(piece@.take(piece@.len() as int) =~= piece@);
    }
}

/// Whether two character sequences are the same.
pub fn eq_chars(a: &[char], b: &[char]) -> (r: bool)
    ensures
        r == (a@ == b@),
{
    if a.len() != b.len() {
        return false;
    }
    let mut i: usize = 0;
    while i < a.len()
        invariant
            i <= a@.len(),
            a@.len() == b@.len(),
            forall|j: int| 0 <= j < i ==> a@[j] == b@[j],
        decreases a@.len() - i,
    {
        if a[i] != b[i] {
            return false;
        }
        i = i + 1;
    }
    proof {
        assert(a@ =~= b@);
    }
    true
}

/// Whether two strings hold the same text.
pub fn same_text(a: &str, b: &str) -> (r: bool)
    ensures
        r == (a@ == b@),
{
    let x = to_chars(a);
    let y = to_chars(b);
    eq_chars(&x, &y)
}

// --- ASCII case folding ---

/// One character with ASCII upper case folded to lower case.
pub open spec fn lower_char(c: char) -> char {
    if 'A' <= c && c <= 'Z' {
        ((c as u8 + 32) as u8) as char
    } else {
        c
    }
}

/// A text with ASCII upper case folded to lower case; other characters stay.
pub open spec fn ascii_lowercase(s: Seq<char>) -> Seq<char> {
    s.map_values(|c: char| lower_char(c))
}

/// Folds one character to ASCII lower case.
pub fn to_lower_char(c: char) -> (r: char)
    ensures
        r == lower_char(c),
{
    if 'A' <= c && c <= 'Z' {
        (c as u8 + 32) as char
    } else {
        c
    }
}

/// Folds a text to ASCII lower case.
pub fn to_ascii_lowercase(s: &str) -> (r: String)
    ensures
        r@ == ascii_lowercase(s@),
{
    let mut out = String::new();
    for c in it: s.chars()
        invariant
            it.seq() == s@,
            out@ == ascii_lowercase(s@.take(it.index() as int)),
    {
        out.push(to_lower_char(c));
        proof {
            assert(s@.take(it.index() as int + 1) =~= s@.take(it.index() as int).push(c));
            assert(out@ =~= ascii_lowercase(s@.take(it.index() as int + 1)));
        }
    }
    proof {
        assert(s@.take(s@.len() as int) =~= s@);
    }
    out
}

/// Whether two texts are the same up to ASCII case.
pub fn eq_ignore_ascii_case(a: &[char], b: &[char]) -> (r: bool)
    ensures
        r == (ascii_lowercase(a@) == ascii_lowercase(b@)),
{
    if a.len() != b.len() {
        proof {
            assert(ascii_lowercase(a@).len() != ascii_lowercase(b@).len());
        }
        return false;
    }
    let mut i: usize = 0;
    while i < a.len()
        invariant
            i <= a@.len(),
            a@.len() == b@.len(),
            forall|j: int| 0 <= j < i ==> lower_char(a@[j]) == lower_char(b@[j]),
        decreases a@.len() - i,
    {
        if to_lower_char(a[i]) != to_lower_char(b[i]) {
            proof {
                assert(ascii_lowercase(a@)[i as int] != ascii_lowercase(b@)[i as int]);
            }
            return false;
        }
        i = i + 1;
    }
    proof {
        assert(ascii_lowercase(a@) =~= ascii_lowercase(b@));
    }
    true
}

/// Folding twice changes nothing more.
pub proof fn lowercase_idempotent(s: Seq<char>)
    ensures
        ascii_lowercase(ascii_lowercase(s)) == ascii_lowercase(s),
{
    assert forall|c: char| lower_char(#[trigger] lower_char(c)) == lower_char(c) by {
        if 'A' <= c && c <= 'Z' {
            let n: u8 = c as u8;
            assert(65 <= n <= 90);
            assert(97 <= (n + 32) as u8 <= 122);
        }
    }
    assert(ascii_lowercase(ascii_lowercase(s)) =~= ascii_lowercase(s));
}

// --- Trimming ---

/// The characters with Unicode's `White_Space` property.
pub open spec fn is_space(c: char) -> bool {
    ||| '\u{9}' <= c && c <= '\u{d}'
    ||| c == ' '
    ||| c == '\u{85}'
    ||| c == '\u{a0}'
    ||| c == '\u{1680}'
    ||| '\u{2000}' <= c && c <= '\u{200a}'
    ||| c == '\u{2028}'
    ||| c == '\u{2029}'
    ||| c == '\u{202f}'
    ||| c == '\u{205f}'
    ||| c == '\u{3000}'
}

/// Whether a character is white space.
pub fn char_is_space(c: char) -> (r: bool)
    ensures
        r == is_space(c),
{
    ('\u{9}' <= c && c <= '\u{d}') || c == ' ' || c == '\u{85}' || c == '\u{a0}' || c == '\u{1680}'
        || ('\u{2000}' <= c && c <= '\u{200a}') || c == '\u{2028}' || c == '\u{2029}'
        || c == '\u{202f}' || c == '\u{205f}' || c == '\u{3000}'
}

/// Unicode's control characters (general category Cc).
pub open spec fn is_control(c: char) -> bool {
    c <= '\u{1f}' || ('\u{7f}' <= c && c <= '\u{9f}')
}

/// Whether a character is a control character.
pub fn char_is_control(c: char) -> (r: bool)
    ensures
        r == is_control(c),
{
    c <= '\u{1f}' || ('\u{7f}' <= c && c <= '\u{9f}')
}

/// A text without its leading white space.
pub open spec fn trim_start(s: Seq<char>) -> Seq<char>
    decreases s.len(),
{
    if s.len() > 0 && is_space(s[0]) {
        trim_start(s.skip(1))
    } else {
        s
    }
}

/// A text without its trailing white space.
pub open spec fn trim_end(s: Seq<char>) -> Seq<char>
    decreases s.len(),
{
    if s.len() > 0 && is_space(s.last()) {
        trim_end(s.drop_last())
    } else {
        s
    }
}

/// A text without white space at either end.
pub open spec fn trimmed(s: Seq<char>) -> Seq<char> {
    trim_end(trim_start(s))
}

/// Strips white space from both ends.
pub fn trim(s: &[char]) -> (r: &[char])
    ensures
        r@ == trimmed(s@),
{
    let mut i: usize = 0;
    proof {
        assert(s@.skip(0) =~= s@);
    }
    while i < s.len() && char_is_space(s[i])
        invariant
            i <= s@.len(),
            trim_start(s@) == trim_start(s@.skip(i as int)),
        decreases s@.len() - i,
    {
        proof {
            assert(s@.skip(i as int).skip(1) =~= s@.skip(i + 1));
        }
        i = i + 1;
    }
    let t = slice_subrange(s, i, s.len());
    proof {
        assert(t@ =~= s@.skip(i as int));
        assert(t@ == trim_start(s@));
    }
    let mut j: usize = t.len();
    proof {
        assert(t@.take(t@.len() as int) =~= t@);
    }
    while j > 0 && char_is_space(t[j - 1])
        invariant
            j <= t@.len(),
            trim_end(t@) == trim_end(t@.take(j as int)),
        decreases j,
    {
        proof {
            assert(t@.take(j as int).drop_last() =~= t@.take(j - 1));
        }
        j = j - 1;
    }
    proof {
        assert(t@.subrange(0, j as int) =~= t@.take(j as int));
    }
    slice_subrange(t, 0, j)
}

// --- Prefixes, suffixes and positions ---

/// Whether `s` begins with `p`.
pub fn starts_with(s: &[char], p: &[char]) -> (r: bool)
    ensures
        r == p@.is_prefix_of(s@),
{
    if p.len() > s.len() {
        return false;
    }
    let head = slice_subrange(s, 0, p.len());
    eq_chars(p, head)
}

/// Whether `s` ends with `p`.
pub fn ends_with(s: &[char], p: &[char]) -> (r: bool)
    ensures
        r == p@.is_suffix_of(s@),
{
    if p.len() > s.len() {
        return false;
    }
    let tail = slice_subrange(s, s.len() - p.len(), s.len());
    eq_chars(p, tail)
}

/// Whether `c` occurs in `s`.
pub fn contains_char(s: &[char], c: char) -> (r: bool)
    ensures
        r == s@.contains(c),
{
    let mut i: usize = 0;
    while i < s.len()
        invariant
            i <= s@.len(),
            forall|j: int| 0 <= j < i ==> s@[j] != c,
        decreases s@.len() - i,
    {
        if s[i] == c {
            return true;
        }
        i = i + 1;
    }
    false
}

/// What follows the last occurrence of `c` in `s`, where there is one.
pub open spec fn after_last(s: Seq<char>, c: char) -> Option<Seq<char>>
    decreases s.len(),
{
    if s.len() == 0 {
        None
    } else if s.last() == c {
        Some(Seq::empty())
    } else {
        match after_last(s.drop_last(), c) {
            Some(t) => Some(t.push(s.last())),
            None => None,
        }
    }
}

proof fn lemma_after_last_found(s: Seq<char>, c: char, k: int)
    requires
        0 <= k < s.len(),
        s[k] == c,
        forall|j: int| k < j < s.len() ==> s[j] != c,
    ensures
        after_last(s, c) == Some(s.skip(k + 1)),
    decreases s.len(),
{
    if k == s.len() - 1 {
        assert(s.skip(k + 1) =~= Seq::empty());
    } else {
        lemma_after_last_found(s.drop_last(), c, k);
        assert(s.drop_last().skip(k + 1).push(s.last()) =~= s.skip(k + 1));
    }
}

proof fn lemma_after_last_absent(s: Seq<char>, c: char)
    requires
        forall|j: int| 0 <= j < s.len() ==> s[j] != c,
    ensures
        after_last(s, c) is None,
    decreases s.len(),
{
    if s.len() > 0 {
        lemma_after_last_absent(s.drop_last(), c);
    }
}

/// The part of `s` after the last `c`, or `None` where `c` does not occur.
pub fn split_after_last(s: &[char], c: char) -> (r: Option<&[char]>)
    ensures
        match r {
            Some(t) => after_last(s@, c) == Some(t@),
            None => after_last(s@, c) is None,
        },
{
    let mut i: usize = s.len();
    while i > 0
        invariant
            i <= s@.len(),
            forall|j: int| i <= j < s@.len() ==> s@[j] != c,
        decreases i,
    {
        if s[i - 1] == c {
            proof {
                lemma_after_last_found(s@, c, i - 1);
                assert(s@.subrange(i as int, s@.len() as int) =~= s@.skip(i as int));
            }
            return Some(slice_subrange(s, i, s.len()));
        }
        i = i - 1;
    }
    proof {
        lemma_after_last_absent(s@, c);
    }
    None
}

// --- Splitting ---

/// The pieces of `s` between the characters that satisfy `sep`; empty pieces
/// are kept, so there is always one piece more than there are separators.
pub open spec fn split_on(s: Seq<char>, sep: spec_fn(char) -> bool) -> Seq<Seq<char>>
    decreases s.len(),
{
    if s.len() == 0 {
        seq![Seq::empty()]
    } else {
        let before = split_on(s.drop_last(), sep);
        if sep(s.last()) {
            before.push(Seq::empty())
        } else {
            before.drop_last().push(before.last().push(s.last()))
        }
    }
}

/// The texts that a vector of character vectors holds.
pub open spec fn texts(v: Seq<Vec<char>>) -> Seq<Seq<char>> {
    v.map_values(|x: Vec<char>| x@)
}

/// Splits `s` at every `sep`.
pub fn split_char(s: &[char], sep: char) -> (r: Vec<Vec<char>>)
    ensures
        texts(r@) == split_on(s@, |x: char| x == sep),
        r@.len() >= 1,
{
    let ghost p = |x: char| x == sep;
    let mut done: Vec<Vec<char>> = Vec::new();
    let mut cur: Vec<char> = Vec::new();
    let mut i: usize = 0;
    proof {
        assert(s@.take(0) =~= Seq::empty());
        assert(texts(done@).push(cur@) =~= seq![Seq::empty()]);
    }
    while i < s.len()
        invariant
            i <= s@.len(),
            p == (|x: char| x == sep),
            texts(done@).push(cur@) == split_on(s@.take(i as int), p),
        decreases s@.len() - i,
    {
        let c = s[i];
        let ghost before = texts(done@);
        let ghost piece = cur@;
        proof {
            assert(s@.take(i + 1).drop_last() =~= s@.take(i as int));
            assert(before.push(piece).drop_last() =~= before);
        }
        if c == sep {
            done.push(cur);
            cur = Vec::new();
            proof {
                assert(texts(done@) =~= before.push(piece));
            }
        } else {
            cur.push(c);
        }
        i = i + 1;
    }
    proof {
        assert(s@.take(s@.len() as int) =~= s@);
    }
    let ghost before = texts(done@);
    let ghost piece = cur@;
    done.push(cur);
    proof {
        assert(texts(done@) =~= before.push(piece));
    }
    done
}

/// The maximal runs of characters that are not white space, in order.
pub open spec fn words(s: Seq<char>) -> Seq<Seq<char>> {
    split_on(s, |x: char| is_space(x)).filter(|w: Seq<char>| w.len() > 0)
}

proof fn lemma_filter_push(s: Seq<Seq<char>>, x: Seq<char>, keep: spec_fn(Seq<char>) -> bool)
    ensures
        s.push(x).filter(keep) == (if keep(x) {
            s.filter(keep).push(x)
        } else {
            s.filter(keep)
        }),
{
    reveal(Seq::filter);
    assert(s.push(x).drop_last() =~= s);
}

/// Splits `s` into its words, at white space.
pub fn split_words(s: &[char]) -> (r: Vec<Vec<char>>)
    ensures
        texts(r@) == words(s@),
{
    let ghost p = |x: char| is_space(x);
    let ghost keep = |w: Seq<char>| w.len() > 0;
    let ghost mut done: Seq<Seq<char>> = Seq::empty();
    let mut out: Vec<Vec<char>> = Vec::new();
    let mut cur: Vec<char> = Vec::new();
    let mut i: usize = 0;
    proof {
        assert(s@.take(0) =~= Seq::empty());
        assert(done.push(cur@) =~= seq![Seq::empty()]);
        reveal(Seq::filter);
        assert(texts(out@) =~= done.filter(keep));
    }
    while i < s.len()
        invariant
            i <= s@.len(),
            p == (|x: char| is_space(x)),
            keep == (|w: Seq<char>| w.len() > 0),
            done.push(cur@) == split_on(s@.take(i as int), p),
            texts(out@) == done.filter(keep),
        decreases s@.len() - i,
    {
        let c = s[i];
        let ghost piece = cur@;
        let ghost before = texts(out@);
        proof {
            assert(s@.take(i + 1).drop_last() =~= s@.take(i as int));
            assert(done.push(piece).drop_last() =~= done);
            lemma_filter_push(done, piece, keep);
        }
        if char_is_space(c) {
            if cur.len() > 0 {
                out.push(cur);
                proof {
                    assert(texts(out@) =~= before.push(piece));
                }
            }
            proof {
                done = done.push(piece);
            }
            cur = Vec::new();
        } else {
            cur.push(c);
        }
        i = i + 1;
    }
    let ghost piece = cur@;
    let ghost before = texts(out@);
    proof {
        assert(s@.take(s@.len() as int) =~= s@);
        lemma_filter_push(done, piece, keep);
    }
    if cur.len() > 0 {
        out.push(cur);
        proof {
            assert(texts(out@) =~= before.push(piece));
        }
    }
    out
}

/// A line without the carriage return that ends it.
pub open spec fn chop_cr(line: Seq<char>) -> Seq<char> {
    if line.len() > 0 && line.last() == '\r' {
        line.drop_last()
    } else {
        line
    }
}

/// The lines of a text: split at line feeds, with the carriage return before a
/// line feed removed, and without an empty last line.
pub open spec fn lines_of(s: Seq<char>) -> Seq<Seq<char>> {
    let pieces = split_on(s, |x: char| x == '\n');
    let ended = pieces.drop_last().map_values(|l: Seq<char>| chop_cr(l));
    if pieces.last().len() == 0 {
        ended
    } else {
        ended.push(pieces.last())
    }
}

/// Splits a text into its lines.
pub fn split_lines(s: &[char]) -> (r: Vec<Vec<char>>)
    ensures
        texts(r@) == lines_of(s@),
{
    let pieces = split_char(s, '\n');
    let ghost ps = split_on(s@, |x: char| x == '\n');
    let n: usize = pieces.len() - 1;
    let mut out: Vec<Vec<char>> = Vec::new();
    let mut i: usize = 0;
    while i < n
        invariant
            i <= n,
            n == pieces@.len() - 1,
            texts(pieces@) == ps,
            out@.len() == i,
            forall|j: int| 0 <= j < i ==> #[trigger] out@[j]@ == chop_cr(ps[j]),
        decreases n - i,
    {
        let piece = &pieces[i];
        proof {
            assert(texts(pieces@)[i as int] == piece@);
        }
        let k: usize = if piece.len() > 0 && piece[piece.len() - 1] == '\r' {
            piece.len() - 1
        } else {
            piece.len()
        };
        let line = copy_chars(slice_subrange(piece.as_slice(), 0, k));
        proof {
            assert(line@ =~= chop_cr(ps[i as int]));
        }
        out.push(line);
        i = i + 1;
    }
    proof {
        assert(texts(pieces@)[n as int] == pieces@[n as int]@);
        assert(texts(out@) =~= ps.drop_last().map_values(|l: Seq<char>| chop_cr(l)));
    }
    let ghost ended = texts(out@);
    if pieces[n].len() > 0 {
        let line = copy_chars(pieces[n].as_slice());
        out.push(line);
        proof {
            assert(texts(out@) =~= ended.push(ps.last()));
        }
    }
    out
}

/// A copy of a character sequence.
pub fn copy_chars(s: &[char]) -> (r: Vec<char>)
    ensures
        r@ == s@,
{
    let mut out: Vec<char> = Vec::new();
    let mut i: usize = 0;
    while i < s.len()
        invariant
            i <= s@.len(),
            out@ == s@.take(i as int),
        decreases s@.len() - i,
    {
        out.push(s[i]);
        i = i + 1;
        proof {
            assert(s@.take(i as int) =~= s@.take(i - 1).push(s@[i - 1]));
        }
    }
    proof {
        assert(s@.take(s@.len() as int) =~= s@);
    }
    out
}

// --- Numbers ---

/// Whether a character is an ASCII digit.
pub open spec fn is_digit(c: char) -> bool {
    '0' <= c && c <= '9'
}

/// The value of an ASCII digit.
pub open spec fn digit_value(c: char) -> nat {
    (c as nat - '0' as nat) as nat
}

/// Whether a text is made of ASCII digits alone.
pub open spec fn all_digits(s: Seq<char>) -> bool {
    forall|i: int| 0 <= i < s.len() ==> is_digit(#[trigger] s[i])
}

/// The number that a run of decimal digits denotes.
pub open spec fn digits_value(s: Seq<char>) -> nat
    decreases s.len(),
{
    if s.len() == 0 {
        0
    } else {
        digits_value(s.drop_last()) * 10 + digit_value(s.last())
    }
}

/// A text without one leading plus sign.
pub open spec fn unsigned_part(s: Seq<char>) -> Seq<char> {
    if s.len() > 0 && s[0] == '+' {
        s.skip(1)
    } else {
        s
    }
}

/// The number that a text denotes: an optional plus sign and at least one
/// decimal digit, with nothing around them.
pub open spec fn parse_nat(s: Seq<char>) -> Option<nat> {
    let t = unsigned_part(s);
    if t.len() > 0 && all_digits(t) {
        Some(digits_value(t))
    } else {
        None
    }
}

/// The number that a text denotes, where it is at most `max`.
pub open spec fn parse_bounded(s: Seq<char>, max: nat) -> Option<nat> {
    match parse_nat(s) {
        Some(v) => if v <= max {
            Some(v)
        } else {
            None
        },
        None => None,
    }
}

proof fn lemma_digits_monotone(s: Seq<char>, k: int)
    requires
        0 <= k <= s.len(),
    ensures
        digits_value(s.take(k)) <= digits_value(s),
    decreases s.len(),
{
    if k == s.len() {
        assert(s.take(k) =~= s);
    } else {
        lemma_digits_monotone(s.drop_last(), k);
        assert(s.drop_last().take(k) =~= s.take(k));
    }
}

/// Reads an unsigned 64-bit decimal number.
pub fn parse_u64(s: &[char]) -> (r: Option<u64>)
    ensures
        match r {
            Some(v) => parse_bounded(s@, u64::MAX as nat) == Some(v as nat),
            None => parse_bounded(s@, u64::MAX as nat) is None,
        },
{
    let start: usize = if s.len() > 0 && s[0] == '+' {
        1
    } else {
        0
    };
    let t = slice_subrange(s, start, s.len());
    proof {
        assert(t@ =~= unsigned_part(s@));
    }
    if t.len() == 0 {
        return None;
    }
    let mut v: u64 = 0;
    let mut i: usize = 0;
    proof {
        assert(t@.take(0) =~= Seq::empty());
    }
    while i < t.len()
        invariant
            i <= t@.len(),
            t@ == unsigned_part(s@),
            v == digits_value(t@.take(i as int)),
            forall|j: int| 0 <= j < i ==> is_digit(#[trigger] t@[j]),
        decreases t@.len() - i,
    {
        let c = t[i];
        if !('0' <= c && c <= '9') {
            return None;
        }
        let d: u64 = (c as u32 - '0' as u32) as u64;
        proof {
            assert(t@.take(i + 1).drop_last() =~= t@.take(i as int));
            assert(t@.take(i + 1).last() == c);
            assert(digits_value(t@.take(i + 1)) == v * 10 + d);
            lemma_digits_monotone(t@, i + 1);
        }
        let w: u64 = match v.checked_mul(10) {
            Some(w) => w,
            None => {
                return None;
            },
        };
        v = match w.checked_add(d) {
            Some(x) => x,
            None => {
                return None;
            },
        };
        i = i + 1;
    }
    proof {
        assert(t@.take(t@.len() as int) =~= t@);
    }
    Some(v)
}

/// Reads an unsigned 32-bit decimal number.
pub fn parse_u32(s: &[char]) -> (r: Option<u32>)
    ensures
        match r {
            Some(v) => parse_bounded(s@, u32::MAX as nat) == Some(v as nat),
            None => parse_bounded(s@, u32::MAX as nat) is None,
        },
{
    match parse_u64(s) {
        Some(v) => if v <= 0xffff_ffff {
            Some(v as u32)
        } else {
            None
        },
        None => None,
    }
}

/// The character for a digit below ten.
pub open spec fn digit_char(d: nat) -> char {
    ((d + '0' as nat) as u8) as char
}

/// The decimal notation of a natural number, without leading zeros.
pub open spec fn decimal(n: nat) -> Seq<char>
    decreases n,
{
    if n < 10 {
        seq![digit_char(n)]
    } else {
        decimal(n / 10).push(digit_char(n % 10))
    }
}

/// The decimal notation of an integer, with a minus sign where it is negative.
pub open spec fn decimal_int(n: int) -> Seq<char> {
    if n < 0 {
        seq!['-'] + decimal((-n) as nat)
    } else {
        decimal(n as nat)
    }
}

/// Appends the decimal notation of `n`.
pub fn append_u64(out: &mut String, n: u64)
    ensures
        final(out)@ == old(out)@ + decimal(n as nat),
    decreases n,
{
    if n < 10 {
        out.push((n as u8 + 48) as char);
        proof {
            assert(out@ =~= old(out)@ + decimal(n as nat));
        }
    } else {
        append_u64(out, n / 10);
        let d: u64 = n % 10;
        out.push((d as u8 + 48) as char);
        proof {
            assert(out@ =~= old(out)@ + decimal(n as nat));
        }
    }
}

/// Appends the decimal notation of `n`, with its sign where negative.
pub fn append_i64(out: &mut String, n: i64)
    ensures
        final(out)@ == old(out)@ + decimal_int(n as int),
{
    if n >= 0 {
        append_u64(out, n as u64);
    } else {
        out.push('-');
        let m: u64 = if n == i64::MIN {
            0x8000_0000_0000_0000
        } else {
            (-n) as u64
        };
        append_u64(out, m);
        proof {
            assert(out@ =~= old(out)@ + decimal_int(n as int));
        }
    }
}

/// The decimal notation of `n`.
pub fn format_u64(n: u64) -> (r: String)
    ensures
        r@ == decimal(n as nat),
{
    let mut out = String::new();
    append_u64(&mut out, n);
    proof {
        assert(out@ =~= decimal(n as nat));
    }
    out
}

/// A number is written in digits alone, and read back as the same number.
pub proof fn decimal_round_trip(n: nat)
    ensures
        parse_nat(decimal(n)) == Some(n),
        all_digits(decimal(n)),
{
    lemma_decimal_digits(n);
    assert(unsigned_part(decimal(n)) == decimal(n)) by {
        assert(is_digit(decimal(n)[0]));
    }
}

proof fn lemma_decimal_digits(n: nat)
    ensures
        decimal(n).len() > 0,
        all_digits(decimal(n)),
        digits_value(decimal(n)) == n,
    decreases n,
{
    if n < 10 {
        assert(decimal(n).drop_last() =~= Seq::empty());
        assert(digits_value(decimal(n).drop_last()) == 0);
        assert(decimal(n).last() == digit_char(n));
    } else {
        lemma_decimal_digits(n / 10);
        let d = n % 10;
        assert(decimal(n).drop_last() =~= decimal(n / 10));
        assert(decimal(n).last() == digit_char(d));
        assert(is_digit(digit_char(d)));
        assert forall|i: int| 0 <= i < decimal(n).len() implies is_digit(
            #[trigger] decimal(n)[i],
        ) by {
            if i < decimal(n / 10).len() {
                assert(decimal(n)[i] == decimal(n / 10)[i]);
            }
        }
    }
}

// --- Concatenation ---

/// Two texts, one after the other.
pub fn cat2(a: &str, b: &str) -> (r: String)
    ensures
        r@ == a@ + b@,
{
    let mut out = String::new();
    append(&mut out, a);
    append(&mut out, b);
    proof {
        assert(Seq::<char>::empty() + a@ =~= a@);
    }
    out
}

/// Three texts, one after the other.
pub fn cat3(a: &str, b: &str, c: &str) -> (r: String)
    ensures
        r@ == a@ + b@ + c@,
{
    let mut out = cat2(a, b);
    append(&mut out, c);
    out
}

/// Four texts, one after the other.
pub fn cat4(a: &str, b: &str, c: &str, d: &str) -> (r: String)
    ensures
        r@ == a@ + b@ + c@ + d@,
{
    let mut out = cat3(a, b, c);
    append(&mut out, d);
    out
}

/// Five texts, one after the other.
pub fn cat5(a: &str, b: &str, c: &str, d: &str, e: &str) -> (r: String)
    ensures
        r@ == a@ + b@ + c@ + d@ + e@,
{
    let mut out = cat4(a, b, c, d);
    append(&mut out, e);
    out
}

/// The text of an optional string, empty where there is none.
pub open spec fn text_or_empty(s: Option<String>) -> Seq<char> {
    match s {
        Some(t) => t@,
        None => Seq::empty(),
    }
}

/// The view of an optional string.
pub open spec fn opt_text(s: Option<String>) -> Option<Seq<char>> {
    match s {
        Some(t) => Some(t@),
        None => None,
    }
}

/// A copy of an optional string.
pub fn clone_opt(s: &Option<String>) -> (r: Option<String>)
    ensures
        r == *s,
{
    match s {
        Some(t) => Some(t.clone()),
        None => None,
    }
}

// --- What the operations on texts are for ---

/// Folding case changes nothing but the ASCII capitals, each to its small letter, in
/// its place; none is left.
pub proof fn folding_touches_only_capitals(s: Seq<char>, i: int)
    requires
        0 <= i < s.len(),
    ensures
        ascii_lowercase(s).len() == s.len(),
        !('A' <= s[i] && s[i] <= 'Z') ==> ascii_lowercase(s)[i] == s[i],
        'A' <= s[i] && s[i] <= 'Z' ==> ascii_lowercase(s)[i] as int == s[i] as int + 32,
        !('A' <= ascii_lowercase(s)[i] && ascii_lowercase(s)[i] <= 'Z'),
{
    let c = s[i];
    if 'A' <= c && c <= 'Z' {
        let n: u8 = c as u8;
        assert(65 <= n <= 90);
        assert(97 <= (n + 32) as u8 <= 122);
    }
}

/// Of ASCII, the tab, the line ends, the feeds and the space are white space; the
/// control characters are those below the space, and DEL.
pub proof fn ascii_spaces_and_controls(c: char)
    requires
        c <= '\u{7f}',
    ensures
        is_space(c) <==> c == ' ' || c == '\t' || c == '\n' || c == '\r' || c == '\u{b}' || c
            == '\u{c}',
        is_control(c) <==> c < ' ' || c == '\u{7f}',
{
}

/// Trimming the start takes white space, as long as there is some, and nothing else.
pub proof fn trimming_the_start(s: Seq<char>) -> (k: int)
    ensures
        0 <= k <= s.len(),
        trim_start(s) == s.skip(k),
        forall|i: int| 0 <= i < k ==> is_space(#[trigger] s[i]),
        k < s.len() ==> !is_space(s[k]),
    decreases s.len(),
{
    if s.len() > 0 && is_space(s[0]) {
        let rest = s.skip(1);
        let k = trimming_the_start(rest);
        assert(rest.skip(k) =~= s.skip(k + 1));
        assert forall|i: int| 0 <= i < k + 1 implies is_space(#[trigger] s[i]) by {
            if i > 0 {
                assert(rest[i - 1] == s[i]);
            }
        }
        k + 1
    } else {
        assert(s.skip(0) =~= s);
        0
    }
}

/// Trimming the end takes white space, as long as there is some, and nothing else.
pub proof fn trimming_the_end(s: Seq<char>) -> (k: int)
    ensures
        0 <= k <= s.len(),
        trim_end(s) == s.take(k),
        forall|i: int| k <= i < s.len() ==> is_space(#[trigger] s[i]),
        k > 0 ==> !is_space(s[k - 1]),
    decreases s.len(),
{
    if s.len() > 0 && is_space(s.last()) {
        let rest = s.drop_last();
        let k = trimming_the_end(rest);
        assert(rest.take(k) =~= s.take(k));
        assert forall|i: int| k <= i < s.len() implies is_space(#[trigger] s[i]) by {
            if i < rest.len() {
                assert(rest[i] == s[i]);
            }
        }
        k
    } else {
        assert(s.take(s.len() as int) =~= s);
        s.len() as int
    }
}

/// A trimmed text has no white space at either end; one that had none to begin with
/// is left as it was.
pub proof fn trimmed_has_no_outer_space(s: Seq<char>)
    ensures
        trimmed(s).len() > 0 ==> !is_space(trimmed(s)[0]) && !is_space(trimmed(s).last()),
        s.len() > 0 && !is_space(s[0]) && !is_space(s.last()) ==> trimmed(s) == s,
        forall|i: int| 0 <= i < s.len() && !is_space(#[trigger] s[i]) ==> trimmed(s).contains(s[i]),
{
    let a = trimming_the_start(s);
    let t = trim_start(s);
    let b = trimming_the_end(t);
    assert(trimmed(s) == t.take(b));
    if trimmed(s).len() > 0 {
        assert(trimmed(s)[0] == s[a]);
    }
    assert forall|i: int| 0 <= i < s.len() && !is_space(#[trigger] s[i]) implies trimmed(
        s,
    ).contains(s[i]) by {
        assert(a <= i);
        assert(t[i - a] == s[i]);
        assert(i - a < b);
        assert(trimmed(s)[i - a] == s[i]);
    }
}

/// What follows the last occurrence of a character is all that stands behind it, where
/// it occurs at all.
pub proof fn after_last_is_the_tail(head: Seq<char>, c: char, tail: Seq<char>)
    requires
        !tail.contains(c),
    ensures
        after_last(head.push(c) + tail, c) == Some(tail),
        after_last(tail, c) is None,
{
    let s = head.push(c) + tail;
    let k = head.len() as int;
    assert forall|j: int| k < j < s.len() implies s[j] != c by {
        assert(tail.contains(tail[j - k - 1]));
        assert(s[j] == tail[j - k - 1]);
    }
    lemma_after_last_found(s, c, k);
    assert(s.skip(k + 1) =~= tail);
    assert forall|j: int| 0 <= j < tail.len() implies tail[j] != c by {
        assert(tail.contains(tail[j]));
    }
    lemma_after_last_absent(tail, c);
}

/// A text without a separator is one piece.
pub proof fn unsplit_text_is_one_piece(s: Seq<char>, sep: spec_fn(char) -> bool)
    requires
        forall|i: int| 0 <= i < s.len() ==> !sep(#[trigger] s[i]),
    ensures
        split_on(s, sep) == seq![s],
    decreases s.len(),
{
    if s.len() > 0 {
        let t = s.drop_last();
        assert forall|i: int| 0 <= i < t.len() implies !sep(#[trigger] t[i]) by {
            assert(t[i] == s[i]);
        }
        unsplit_text_is_one_piece(t, sep);
        assert(s[s.len() - 1] == s.last());
        assert(seq![t].drop_last() =~= Seq::<Seq<char>>::empty());
        assert(t.push(s.last()) =~= s);
        assert(split_on(s, sep) =~= seq![s]);
    } else {
        assert(s =~= Seq::empty());
        assert(split_on(s, sep) =~= seq![s]);
    }
}

/// A separator parts a text: its pieces are those of what stands before it, followed by
/// those of what stands behind it.
pub proof fn separator_parts_the_text(
    a: Seq<char>,
    c: char,
    b: Seq<char>,
    sep: spec_fn(char) -> bool,
)
    requires
        sep(c),
    ensures
        split_on(a.push(c) + b, sep) == split_on(a, sep) + split_on(b, sep),
        split_on(b, sep).len() > 0,
    decreases b.len(),
{
    let s = a.push(c) + b;
    if b.len() == 0 {
        assert(s =~= a.push(c));
        assert(s.drop_last() =~= a);
        assert(split_on(b, sep) =~= seq![Seq::<char>::empty()]);
        assert(split_on(s, sep) =~= split_on(a, sep) + split_on(b, sep));
    } else {
        let t = b.drop_last();
        separator_parts_the_text(a, c, t, sep);
        assert(s.drop_last() =~= a.push(c) + t);
        assert(s.last() == b.last());
        let left = split_on(a, sep);
        let right = split_on(t, sep);
        assert((left + right).last() == right.last());
        assert((left + right).drop_last() =~= left + right.drop_last());
        assert(split_on(s, sep) =~= left + split_on(b, sep));
    }
}

/// A run of characters without white space is one word; nothing, or white space alone,
/// is none.
pub proof fn a_run_is_one_word(s: Seq<char>)
    requires
        forall|i: int| 0 <= i < s.len() ==> !is_space(#[trigger] s[i]),
    ensures
        s.len() > 0 ==> words(s) == seq![s],
        s.len() == 0 ==> words(s) == Seq::<Seq<char>>::empty(),
{
    let sep = |x: char| is_space(x);
    let keep = |w: Seq<char>| w.len() > 0;
    assert forall|i: int| 0 <= i < s.len() implies !sep(#[trigger] s[i]) by {}
    unsplit_text_is_one_piece(s, sep);
    let none = Seq::<Seq<char>>::empty();
    lemma_filter_push(none, s, keep);
    assert(none.push(s) =~= seq![s]);
    reveal(Seq::filter);
    assert(none.filter(keep) =~= none);
    assert(words(s) == seq![s].filter(keep));
    if s.len() > 0 {
        assert(words(s) =~= seq![s]);
    }
}

/// White space parts words: the words of a text are those of what stands before it,
/// followed by those of what stands behind it.
pub proof fn white_space_parts_words(a: Seq<char>, c: char, b: Seq<char>)
    requires
        is_space(c),
    ensures
        words(a.push(c) + b) == words(a) + words(b),
{
    let sep = |x: char| is_space(x);
    let keep = |w: Seq<char>| w.len() > 0;
    separator_parts_the_text(a, c, b, sep);
    Seq::filter_distributes_over_add(split_on(a, sep), split_on(b, sep), keep);
}

/// A text without a line feed is one line, or none where it is empty.
pub proof fn a_text_without_line_feed_is_one_line(s: Seq<char>)
    requires
        !s.contains('\n'),
    ensures
        s.len() > 0 ==> lines_of(s) == seq![s],
        s.len() == 0 ==> lines_of(s) == Seq::<Seq<char>>::empty(),
{
    let sep = |x: char| x == '\n';
    assert forall|i: int| 0 <= i < s.len() implies !sep(#[trigger] s[i]) by {
        assert(s.contains(s[i]));
    }
    unsplit_text_is_one_piece(s, sep);
    assert(seq![s].drop_last() =~= Seq::<Seq<char>>::empty());
    let ended = seq![s].drop_last().map_values(|l: Seq<char>| chop_cr(l));
    assert(ended =~= Seq::<Seq<char>>::empty());
    if s.len() > 0 {
        assert(lines_of(s) =~= seq![s]);
    }
}

/// A line feed ends a line, with the carriage return before it; the lines behind it
/// follow.
pub proof fn a_line_feed_ends_a_line(a: Seq<char>, b: Seq<char>)
    requires
        !a.contains('\n'),
    ensures
        lines_of(a.push('\n') + b) == seq![chop_cr(a)] + lines_of(b),
        chop_cr(a.push('\r')) == a,
        a.len() > 0 && a.last() != '\r' ==> chop_cr(a) == a,
{
    let sep = |x: char| x == '\n';
    assert forall|i: int| 0 <= i < a.len() implies !sep(#[trigger] a[i]) by {
        assert(a.contains(a[i]));
    }
    unsplit_text_is_one_piece(a, sep);
    separator_parts_the_text(a, '\n', b, sep);
    let chop = |l: Seq<char>| chop_cr(l);
    let right = split_on(b, sep);
    let all = seq![a] + right;
    assert(all.last() == right.last());
    assert(all.drop_last() =~= seq![a] + right.drop_last());
    assert(all.drop_last().map_values(chop) =~= seq![chop_cr(a)] + right.drop_last().map_values(
        chop,
    ));
    assert(lines_of(a.push('\n') + b) =~= seq![chop_cr(a)] + lines_of(b));
    assert(a.push('\r').drop_last() =~= a);
}

/// A text is read as a number exactly where it is made of digits, behind one plus sign
/// or none, and there is at least one; as the number that was written, and up to the
/// bound.
pub proof fn numbers_are_read_as_written(s: Seq<char>, n: nat, max: nat)
    ensures
        parse_nat(decimal(n)) == Some(n),
        parse_nat(seq!['+'] + decimal(n)) == Some(n),
        n <= max ==> parse_bounded(decimal(n), max) == Some(n),
        n > max ==> parse_bounded(decimal(n), max) is None,
        s.len() == 0 ==> parse_nat(s) is None,
        (exists|i: int| 0 < i < s.len() && !is_digit(#[trigger] s[i])) ==> parse_nat(s) is None,
        s.len() > 0 && !is_digit(s[0]) && s[0] != '+' ==> parse_nat(s) is None,
        parse_bounded(s, max) matches Some(v) ==> v <= max && parse_nat(s) == Some(v),
{
    decimal_round_trip(n);
    let t = seq!['+'] + decimal(n);
    assert(t[0] == '+');
    assert(t.skip(1) =~= decimal(n));
    lemma_decimal_digits(n);
    if exists|i: int| 0 < i < s.len() && !is_digit(#[trigger] s[i]) {
        let i = choose|i: int| 0 < i < s.len() && !is_digit(#[trigger] s[i]);
        let u = unsigned_part(s);
        if s[0] == '+' {
            assert(u[i - 1] == s[i]);
        }
    }
    if s.len() > 0 && !is_digit(s[0]) && s[0] != '+' {
        assert(unsigned_part(s)[0] == s[0]);
    }
}

/// A number is written without leading zeros, and a negative one with its sign.
pub proof fn numbers_are_written_plainly(n: nat)
    ensures
        decimal(n).len() > 0,
        n > 0 ==> decimal(n)[0] != '0',
        n < 10 ==> decimal(n).len() == 1,
        n >= 10 ==> decimal(n).len() == decimal(n / 10).len() + 1,
        n > 0 ==> decimal_int(-(n as int)) == seq!['-'] + decimal(n),
        decimal_int(n as int) == decimal(n),
    decreases n,
{
    if n >= 10 {
        numbers_are_written_plainly(n / 10);
        assert(decimal(n)[0] == decimal(n / 10)[0]);
    } else if n > 0 {
        assert(digit_char(n) as nat == n + 48);
    }
}

/// A text that is absent reads as empty where a text is needed; one that is there
/// reads as it is.
pub proof fn absent_text_is_empty(s: Option<String>)
    ensures
        s is None ==> text_or_empty(s).len() == 0 && opt_text(s) is None,
        s matches Some(t) ==> text_or_empty(s) == t@ && opt_text(s) == Some(t@),
{
}

} // verus!
