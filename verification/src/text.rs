//! Text helpers: strings are reasoned about as sequences of characters.

use vstd::prelude::*;
use vstd::string::*;

verus! {

// ============================================================================
// Comparing and building strings
// ============================================================================

/// Whether two strings hold the same characters: compared byte by byte,
/// since the encoding of a text tells the text.
pub fn same_text(a: &str, b: &str) -> (r: bool)
    ensures
        r == (a@ == b@),
{
    let x = a.as_bytes();
    let y = b.as_bytes();
    proof {
        vstd::utf8::encode_utf8_decode_utf8(a@);
        vstd::utf8::encode_utf8_decode_utf8(b@);
    }
    if x.len() != y.len() {
        return false;
    }
    let mut i: usize = 0;
    while i < x.len()
        invariant
            i <= x@.len(),
            x@.len() == y@.len(),
            x@ == vstd::utf8::encode_utf8(a@),
            y@ == vstd::utf8::encode_utf8(b@),
            forall|j: int| 0 <= j < i ==> x@[j] == y@[j],
        decreases x@.len() - i,
    {
        if x[i] != y[i] {
            return false;
        }
        i += 1;
    }
    proof {
        assert(x@ =~= y@);
    }
    true
}

/// `String::push` of the standard library: appends one character.
#[verifier::external_body]
pub(crate) fn push_char(s: &mut String, c: char)
    ensures
        final(s)@ == old(s)@.push(c),
{
    s.push(c)
}

/// Lexicographic order of texts by code point: `a` comes strictly before `b`.
pub open spec fn text_before(a: Seq<char>, b: Seq<char>) -> bool
    decreases a.len(),
{
    if b.len() == 0 {
        false
    } else if a.len() == 0 {
        true
    } else if a[0] != b[0] {
        (a[0] as u32) < (b[0] as u32)
    } else {
        text_before(a.drop_first(), b.drop_first())
    }
}

// ============================================================================
// Characters and strings
// ============================================================================

/// The characters of a string.
pub fn chars_of(s: &str) -> (v: Vec<char>)
    ensures
        v@ == s@,
{
    let mut v: Vec<char> = Vec::new();
    for c in it: s.chars()
        invariant
            v@ == it.seq().take(it.index() as int),
            it.seq() == s@,
    {
        v.push(c);
    }
    v
}

/// The string made of `chars[from..to]`.
pub fn text_of(chars: &Vec<char>, from: usize, to: usize) -> (s: String)
    requires
        from <= to <= chars.len(),
    ensures
        s@ == chars@.subrange(from as int, to as int),
{
    let mut s = String::new();
    let mut i: usize = from;
    while i < to
        invariant
            from <= i <= to <= chars.len(),
            s@ == chars@.subrange(from as int, i as int),
        decreases to - i,
    {
        push_char(&mut s, chars[i]);
        i += 1;
        assert(chars@.subrange(from as int, i as int) == chars@.subrange(
            from as int,
            i - 1,
        ).push(chars@[i - 1]));
    }
    s
}

/// `a` followed by `b`.
pub fn joined(a: &str, b: &str) -> (s: String)
    ensures
        s@ == a@ + b@,
{
    let mut s = String::from_str(a);
    s.append(b);
    s
}

/// The Unicode property White_Space.
pub open spec fn white_space(c: char) -> bool {
    let u = c as u32;
    (0x09 <= u <= 0x0d) || u == 0x20 || u == 0x85 || u == 0xa0 || u == 0x1680 || (0x2000 <= u
        <= 0x200a) || u == 0x2028 || u == 0x2029 || u == 0x202f || u == 0x205f || u == 0x3000
}

/// Whether a character separates words.
pub fn is_space(c: char) -> (r: bool)
    ensures
        r == white_space(c),
{
    let u: u32 = c as u32;
    (0x09 <= u && u <= 0x0d) || u == 0x20 || u == 0x85 || u == 0xa0 || u == 0x1680 || (0x2000
        <= u && u <= 0x200a) || u == 0x2028 || u == 0x2029 || u == 0x202f || u == 0x205f || u
        == 0x3000
}

// ============================================================================
// Decimal numbers
// ============================================================================

/// The character of a decimal digit.
pub open spec fn digit_char(d: int) -> char {
    if d == 0 {
        '0'
    } else if d == 1 {
        '1'
    } else if d == 2 {
        '2'
    } else if d == 3 {
        '3'
    } else if d == 4 {
        '4'
    } else if d == 5 {
        '5'
    } else if d == 6 {
        '6'
    } else if d == 7 {
        '7'
    } else if d == 8 {
        '8'
    } else {
        '9'
    }
}

/// A natural number in decimal, without leading zeros.
pub open spec fn decimal_text(n: nat) -> Seq<char>
    decreases n,
{
    if n < 10 {
        seq![digit_char(n as int)]
    } else {
        decimal_text(n / 10).push(digit_char((n % 10) as int))
    }
}

fn digit(d: u64) -> (c: char)
    requires
        d < 10,
    ensures
        c == digit_char(d as int),
{
    if d == 0 {
        '0'
    } else if d == 1 {
        '1'
    } else if d == 2 {
        '2'
    } else if d == 3 {
        '3'
    } else if d == 4 {
        '4'
    } else if d == 5 {
        '5'
    } else if d == 6 {
        '6'
    } else if d == 7 {
        '7'
    } else if d == 8 {
        '8'
    } else {
        '9'
    }
}

/// Appends `n` in decimal to `s`.
pub fn push_decimal(s: &mut String, n: u64)
    ensures
        final(s)@ == old(s)@ + decimal_text(n as nat),
    decreases n,
{
    if n >= 10 {
        push_decimal(s, n / 10);
    }
    push_char(s, digit(n % 10));
    proof {
        if n >= 10 {
            assert(old(s)@ + decimal_text((n / 10) as nat).push(digit_char((n % 10) as int))
                =~= (old(s)@ + decimal_text((n / 10) as nat)).push(digit_char((n % 10) as int)));
        } else {
            assert(old(s)@ + seq![digit_char(n as int)] =~= old(s)@.push(digit_char(n as int)));
        }
    }
}

// ============================================================================
// Names with an architecture
// ============================================================================

/// The position of the first `:` of a text, or its length if it has none.
pub open spec fn colon_at(s: Seq<char>) -> int
    decreases s.len(),
{
    if s.len() == 0 || s[0] == ':' {
        0
    } else {
        1 + colon_at(s.drop_first())
    }
}

/// A name without its architecture: what stands before the first `:`.
pub open spec fn base_text(s: Seq<char>) -> Seq<char> {
    s.take(colon_at(s))
}

/// `colon_at` is the first position that holds a `:`.
pub proof fn lemma_colon_at(s: Seq<char>, i: int)
    requires
        0 <= i <= s.len(),
        forall|j: int| 0 <= j < i ==> s[j] != ':',
        i == s.len() || s[i] == ':',
    ensures
        colon_at(s) == i,
    decreases s.len(),
{
    if i > 0 {
        let t = s.drop_first();
        assert forall|j: int| 0 <= j < i - 1 implies t[j] != ':' by {
            assert(t[j] == s[j + 1]);
        }
        lemma_colon_at(t, i - 1);
    }
}

/// A name without its architecture: what stands before the first `:`.
pub fn base_name(fullname: &str) -> (base: String)
    ensures
        base@ == base_text(fullname@),
        forall|j: int| 0 <= j < base@.len() ==> base@[j] != ':',
{
    let chars = chars_of(fullname);
    let mut i: usize = 0;
    while i < chars.len() && chars[i] != ':'
        invariant
            i <= chars.len(),
            forall|j: int| 0 <= j < i ==> chars@[j] != ':',
        decreases chars.len() - i,
    {
        i += 1;
    }
    proof {
        lemma_colon_at(chars@, i as int);
    }
    text_of(&chars, 0, i)
}

/// Whether `s` ends with `suffix`.
pub open spec fn ends_with(s: Seq<char>, suffix: Seq<char>) -> bool {
    suffix.len() <= s.len() && s.skip(s.len() - suffix.len()) == suffix
}

/// `s` without `suffix` at its end; `s` itself where it does not end so.
pub open spec fn without_suffix(s: Seq<char>, suffix: Seq<char>) -> Seq<char> {
    if ends_with(s, suffix) {
        s.take(s.len() - suffix.len())
    } else {
        s
    }
}

/// `s` without `suffix` at its end; `s` itself where it does not end so.
pub fn strip_suffix<'a>(s: &'a str, suffix: &str) -> (r: &'a str)
    ensures
        r@ == without_suffix(s@, suffix@),
{
    let a = chars_of(s);
    let b = chars_of(suffix);
    if b.len() > a.len() {
        return s;
    }
    let start: usize = a.len() - b.len();
    let mut i: usize = 0;
    while i < b.len()
        invariant
            i <= b.len(),
            start + b.len() == a.len(),
            a@ == s@,
            b@ == suffix@,
            forall|j: int| 0 <= j < i ==> a@[start + j] == b@[j],
        decreases b.len() - i,
    {
        if a[start + i] != b[i] {
            proof {
                assert(a@.skip(start as int)[i as int] == a@[start + i]);
                assert(a@.skip(start as int)[i as int] != b@[i as int]);
                assert(s@.len() - suffix@.len() == start);
            }
            return s;
        }
        i += 1;
    }
    proof {
        assert(a@.skip(start as int) =~= b@);
        assert(s@.subrange(0, start as int) == s@.take(start as int));
    }
    s.substring_char(0, start)
}

// ============================================================================
// Lines and words
// ============================================================================

/// A line without the carriage return that stood before its line feed.
pub open spec fn without_return(line: Seq<char>) -> Seq<char> {
    if line.len() > 0 && line.last() == '\r' {
        line.drop_last()
    } else {
        line
    }
}

/// The complete lines of a text and the line that is still open, reading
/// left to right: a line ends at a line feed, and a carriage return right
/// before it belongs to the line ending.
pub open spec fn scan_lines(s: Seq<char>) -> (Seq<Seq<char>>, Seq<char>)
    decreases s.len(),
{
    if s.len() == 0 {
        (Seq::empty(), Seq::empty())
    } else {
        let (done, open) = scan_lines(s.drop_last());
        if s.last() == '\n' {
            (done.push(without_return(open)), Seq::empty())
        } else {
            (done, open.push(s.last()))
        }
    }
}

/// The lines of a text. The last line needs no line ending, and a text that
/// ends with one has no empty line after it.
pub open spec fn lines_of(s: Seq<char>) -> Seq<Seq<char>> {
    let (done, open) = scan_lines(s);
    if open.len() > 0 {
        done.push(open)
    } else {
        done
    }
}

fn line_text(chars: &Vec<char>, from: usize, to: usize, ended: bool) -> (s: String)
    requires
        from <= to <= chars.len(),
    ensures
        s@ == if ended {
            without_return(chars@.subrange(from as int, to as int))
        } else {
            chars@.subrange(from as int, to as int)
        },
{
    if ended && from < to && chars[to - 1] == '\r' {
        proof {
            assert(chars@.subrange(from as int, to as int).drop_last() =~= chars@.subrange(
                from as int,
                to - 1,
            ));
        }
        text_of(chars, from, to - 1)
    } else {
        text_of(chars, from, to)
    }
}

/// The lines of a text.
pub fn split_lines(content: &str) -> (lines: Vec<String>)
    ensures
        crate::types::texts(lines@) == lines_of(content@),
{
    let chars = chars_of(content);
    let mut lines: Vec<String> = Vec::new();
    let mut start: usize = 0;
    let mut i: usize = 0;
    proof {
        assert(chars@.take(0) =~= Seq::<char>::empty());
        assert(crate::types::texts(lines@) =~= Seq::<Seq<char>>::empty());
        assert(chars@.subrange(0, 0) =~= Seq::<char>::empty());
    }
    while i < chars.len()
        invariant
            start <= i <= chars.len(),
            scan_lines(chars@.take(i as int)) == (
                crate::types::texts(lines@),
                chars@.subrange(start as int, i as int),
            ),
        decreases chars.len() - i,
    {
        let ghost before = crate::types::texts(lines@);
        proof {
            assert(chars@.take(i + 1).drop_last() =~= chars@.take(i as int));
            assert(chars@.take(i + 1).last() == chars@[i as int]);
        }
        if chars[i] == '\n' {
            let line = line_text(&chars, start, i, true);
            lines.push(line);
            start = i + 1;
            proof {
                assert(crate::types::texts(lines@) =~= before.push(line@));
                assert(chars@.subrange(start as int, i + 1) =~= Seq::<char>::empty());
            }
        } else {
            proof {
                assert(chars@.subrange(start as int, i + 1) =~= chars@.subrange(
                    start as int,
                    i as int,
                ).push(chars@[i as int]));
            }
        }
        i += 1;
    }
    proof {
        assert(chars@.take(i as int) =~= chars@);
    }
    if start < chars.len() {
        let ghost before = crate::types::texts(lines@);
        let line = line_text(&chars, start, chars.len(), false);
        lines.push(line);
        proof {
            assert(crate::types::texts(lines@) =~= before.push(line@));
        }
    }
    lines
}

/// The complete words of a text and the word that is still open, reading
/// left to right: white space ends a word.
pub open spec fn scan_words(s: Seq<char>) -> (Seq<Seq<char>>, Seq<char>)
    decreases s.len(),
{
    if s.len() == 0 {
        (Seq::empty(), Seq::empty())
    } else {
        let (done, open) = scan_words(s.drop_last());
        if white_space(s.last()) {
            if open.len() > 0 {
                (done.push(open), Seq::empty())
            } else {
                (done, open)
            }
        } else {
            (done, open.push(s.last()))
        }
    }
}

/// The words of a text: its maximal runs of characters that are not white
/// space, in order.
pub open spec fn words_of(s: Seq<char>) -> Seq<Seq<char>> {
    let (done, open) = scan_words(s);
    if open.len() > 0 {
        done.push(open)
    } else {
        done
    }
}

/// The vectors of a vector, as sequences.
pub open spec fn seqs(v: Seq<Vec<char>>) -> Seq<Seq<char>> {
    Seq::new(v.len(), |i: int| v[i]@)
}

/// The words of a text.
pub fn split_words(text: &str) -> (words: Vec<Vec<char>>)
    ensures
        seqs(words@) == words_of(text@),
{
    let chars = chars_of(text);
    let mut words: Vec<Vec<char>> = Vec::new();
    let mut open: Vec<char> = Vec::new();
    let mut i: usize = 0;
    proof {
        assert(seqs(words@) =~= Seq::<Seq<char>>::empty());
    }
    while i < chars.len()
        invariant
            i <= chars.len(),
            scan_words(chars@.take(i as int)) == (seqs(words@), open@),
        decreases chars.len() - i,
    {
        let ghost before = seqs(words@);
        proof {
            assert(chars@.take(i + 1).drop_last() =~= chars@.take(i as int));
            assert(chars@.take(i + 1).last() == chars@[i as int]);
        }
        let c = chars[i];
        if is_space(c) {
            if open.len() > 0 {
                let ghost word = open@;
                words.push(open);
                open = Vec::new();
                proof {
                    assert(seqs(words@) =~= before.push(word));
                }
            }
        } else {
            open.push(c);
        }
        i += 1;
    }
    proof {
        assert(chars@.take(i as int) =~= chars@);
    }
    if open.len() > 0 {
        let ghost before = seqs(words@);
        let ghost word = open@;
        words.push(open);
        proof {
            assert(seqs(words@) =~= before.push(word));
        }
    }
    words
}

} // verus!
