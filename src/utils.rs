use vstd::prelude::*;
use vstd::utf8::{encode_utf8, valid_utf8};

verus! {

/// Whether `c` is one of the characters that end a label.
pub open spec fn is_reserved_label_char(c: char) -> bool {
    c == ';' || c == ',' || c == ':' || c == '(' || c == ')' || c == '[' || c == ']' || c == '~'
}

/// Tests whether `c` may not appear inside a label.
pub fn reserved_label_char(c: char) -> (r: bool)
    ensures
        r == is_reserved_label_char(c),
{
    c == ';' || c == ',' || c == ':' || c == '(' || c == ')' || c == '[' || c == ']' || c == '~'
}

/// The Unicode `White_Space` characters.
pub open spec fn is_white(c: char) -> bool {
    let v = c as u32;
    (0x09 <= v && v <= 0x0d) || v == 0x20 || v == 0x85 || v == 0xa0 || v == 0x1680 || (0x2000
        <= v && v <= 0x200a) || v == 0x2028 || v == 0x2029 || v == 0x202f || v == 0x205f || v
        == 0x3000
}

/// Tests whether `c` is white space in the sense of Unicode's `White_Space` property.
pub fn white_space(c: char) -> (r: bool)
    ensures
        r == is_white(c),
{
    let v = c as u32;
    (0x09 <= v && v <= 0x0d) || v == 0x20 || v == 0x85 || v == 0xa0 || v == 0x1680 || (0x2000
        <= v && v <= 0x200a) || v == 0x2028 || v == 0x2029 || v == 0x202f || v == 0x205f || v
        == 0x3000
}

/// Whether `c` ends a word: white space or a reserved character.
pub open spec fn ends_word(c: char) -> bool {
    is_white(c) || is_reserved_label_char(c)
}

/// The index of the first character at or after `i` that ends a word (or the length).
pub open spec fn word_end(s: Seq<char>, i: int) -> int
    decreases s.len() - i,
{
    if i < 0 || i >= s.len() || ends_word(s[i]) {
        i
    } else {
        word_end(s, i + 1)
    }
}

/// The index of the first `c` at or after `i` (or the length).
pub open spec fn find_char(s: Seq<char>, i: int, c: char) -> int
    decreases s.len() - i,
{
    if i < 0 || i >= s.len() || s[i] == c {
        i
    } else {
        find_char(s, i + 1, c)
    }
}

/// The index of the first line terminator (`\r` or `\n`) at or after `i` (or the length).
pub open spec fn line_end(s: Seq<char>, i: int) -> int
    decreases s.len() - i,
{
    if i < 0 || i >= s.len() || s[i] == '\r' || s[i] == '\n' {
        i
    } else {
        line_end(s, i + 1)
    }
}

/// The index of the first character at or after `i` that is not white space (or the length).
pub open spec fn skip_white(s: Seq<char>, i: int) -> int
    decreases s.len() - i,
{
    if i < 0 || i >= s.len() || !is_white(s[i]) {
        i
    } else {
        skip_white(s, i + 1)
    }
}

pub proof fn lemma_word_end_bounds(s: Seq<char>, i: int)
    requires
        0 <= i <= s.len(),
    ensures
        i <= word_end(s, i) <= s.len(),
        forall|k: int| i <= k < word_end(s, i) ==> !ends_word(#[trigger] s[k]),
        word_end(s, i) < s.len() ==> ends_word(s[word_end(s, i)]),
    decreases s.len() - i,
{
    if i < s.len() && !ends_word(s[i]) {
        lemma_word_end_bounds(s, i + 1);
    }
}

pub proof fn lemma_find_char_bounds(s: Seq<char>, i: int, c: char)
    requires
        0 <= i <= s.len(),
    ensures
        i <= find_char(s, i, c) <= s.len(),
        forall|k: int| i <= k < find_char(s, i, c) ==> #[trigger] s[k] != c,
        find_char(s, i, c) < s.len() ==> s[find_char(s, i, c)] == c,
    decreases s.len() - i,
{
    if i < s.len() && s[i] != c {
        lemma_find_char_bounds(s, i + 1, c);
    }
}

pub proof fn lemma_line_end_bounds(s: Seq<char>, i: int)
    requires
        0 <= i <= s.len(),
    ensures
        i <= line_end(s, i) <= s.len(),
    decreases s.len() - i,
{
    if i < s.len() && s[i] != '\r' && s[i] != '\n' {
        lemma_line_end_bounds(s, i + 1);
    }
}

pub proof fn lemma_skip_white_bounds(s: Seq<char>, i: int)
    requires
        0 <= i <= s.len(),
    ensures
        i <= skip_white(s, i) <= s.len(),
        skip_white(s, i) < s.len() ==> !is_white(s[skip_white(s, i)]),
    decreases s.len() - i,
{
    if i < s.len() && is_white(s[i]) {
        lemma_skip_white_bounds(s, i + 1);
    }
}

/// Relies on `String::push`: appends one character to the end of the string.
#[verifier::external_body]
pub(crate) fn push_char(s: &mut String, c: char)
    ensures
        final(s)@ == old(s)@.push(c),
{
    s.push(c)
}

/// Relies on `String::from_utf8`: it succeeds exactly on valid UTF-8 (no overlong forms, no
/// surrogates), and then keeps the bytes as the text's encoding.
#[verifier::external_body]
fn text_of_utf8(bytes: Vec<u8>) -> (r: Option<String>)
    ensures
        r is Some <==> valid_utf8(bytes@),
        r matches Some(s) ==> encode_utf8(s@) == bytes@,
{
    String::from_utf8(bytes).ok()
}

/// Copies the characters `v[from..to]` into a new string.
pub fn string_of_chars(v: &Vec<char>, from: usize, to: usize) -> (r: String)
    requires
        from <= to <= v.len(),
    ensures
        r@ == v@.subrange(from as int, to as int),
{
    let mut out = String::new();
    let mut i = from;
    while i < to
        invariant
            from <= i <= to <= v.len(),
            out@ == v@.subrange(from as int, i as int),
        decreases to - i,
    {
        push_char(&mut out, v[i]);
        assert(v@.subrange(from as int, i + 1) == v@.subrange(from as int, i as int).push(v@[i as int]));
        i = i + 1;
    }
    out
}

/// The characters of `s`, in order.
pub fn chars_of(s: &str) -> (r: Vec<char>)
    ensures
        r@ == s@,
{
    let mut out: Vec<char> = Vec::new();
    for c in it: s.chars()
        invariant
            out@ == it.seq().take(it.index() as int),
    {
        out.push(c);
    }
    out
}

/// A cursor over the characters of a text.
pub struct StringReader {
    char_data: Vec<char>,
    location: usize,
}

impl StringReader {
    /// The whole text.
    pub closed spec fn text(&self) -> Seq<char> {
        self.char_data@
    }

    /// The index of the next character to be read.
    pub closed spec fn pos(&self) -> int {
        self.location as int
    }

    pub open spec fn wf(&self) -> bool {
        0 <= self.pos() <= self.text().len()
    }

    pub fn from_string(string: String) -> (r: StringReader)
        ensures
            r.wf(),
            r.text() == string@,
            r.pos() == 0,
    {
        let char_data = chars_of(string.as_str());
        StringReader { char_data, location: 0 }
    }

    /// Reads the rest of `reader` as UTF-8 text and makes a cursor over it.
    pub fn from_reader(reader: &mut ByteReader) -> (r: Result<StringReader, ReadFault>)
        requires
            old(reader).wf(),
        ensures
            final(reader).wf(),
            final(reader).data() == old(reader).data(),
            final(reader).at() == old(reader).data().len(),
            r is Ok ==> r->Ok_0.wf() && r->Ok_0.pos() == 0 && encode_utf8(r->Ok_0.text())
                == old(reader).data().subrange(old(reader).at(), old(reader).data().len() as int),
            r is Ok <==> valid_utf8(
                old(reader).data().subrange(old(reader).at(), old(reader).data().len() as int),
            ),
            r is Err ==> r == Err::<StringReader, ReadFault>(ReadFault::InvalidText),
    {
        let n = reader.remaining();
        let bytes = match read_n_bytes(reader, n) {
            Ok(bytes) => bytes,
            Err(f) => {
                return Err(f);
            },
        };
        match text_of_utf8(bytes) {
            Some(text) => Ok(StringReader::from_string(text)),
            None => Err(ReadFault::InvalidText),
        }
    }

    pub fn read_char(&mut self) -> (r: Option<char>)
        requires
            old(self).wf(),
        ensures
            final(self).wf(),
            final(self).text() == old(self).text(),
            old(self).pos() < old(self).text().len() ==> r == Some(old(self).text()[old(self).pos()])
                && final(self).pos() == old(self).pos() + 1,
            old(self).pos() >= old(self).text().len() ==> r is None && final(self).pos()
                == old(self).pos(),
    {
        if self.location < self.char_data.len() {
            let c = self.char_data[self.location];
            self.location = self.location + 1;
            Some(c)
        } else {
            None
        }
    }

    pub fn peek_char(&self) -> (r: Option<char>)
        requires
            self.wf(),
        ensures
            self.pos() < self.text().len() ==> r == Some(self.text()[self.pos()]),
            self.pos() >= self.text().len() ==> r is None,
    {
        if self.location < self.char_data.len() {
            Some(self.char_data[self.location])
        } else {
            None
        }
    }

    /// The character after the next one.
    pub fn peek_next_char(&self) -> (r: Option<char>)
        requires
            self.wf(),
        ensures
            self.pos() + 1 < self.text().len() ==> r == Some(self.text()[self.pos() + 1]),
            self.pos() + 1 >= self.text().len() ==> r is None,
    {
        if self.location < self.char_data.len() && self.location + 1 < self.char_data.len() {
            Some(self.char_data[self.location + 1])
        } else {
            None
        }
    }

    fn word_end_exec(&self) -> (r: usize)
        requires
            self.wf(),
        ensures
            r == word_end(self.text(), self.pos()),
            self.pos() <= r <= self.text().len(),
    {
        proof {
            lemma_word_end_bounds(self.text(), self.pos());
        }
        let mut j = self.location;
        while j < self.char_data.len() && !(white_space(self.char_data[j]) || reserved_label_char(
            self.char_data[j],
        ))
            invariant
                self.wf(),
                self.pos() <= j <= self.text().len(),
                word_end(self.text(), j as int) == word_end(self.text(), self.pos()),
            decreases self.char_data.len() - j,
        {
            j = j + 1;
        }
        j
    }

    /// The word that starts at the cursor, ended by white space or a reserved character.
    pub fn peek_word(&self) -> (r: String)
        requires
            self.wf(),
        ensures
            r@ == self.text().subrange(self.pos(), word_end(self.text(), self.pos())),
    {
        let end = self.word_end_exec();
        string_of_chars(&self.char_data, self.location, end)
    }

    /// Reads the word that starts at the cursor; the cursor stops on the character that ends it.
    pub fn read_word(&mut self) -> (r: String)
        requires
            old(self).wf(),
        ensures
            final(self).wf(),
            final(self).text() == old(self).text(),
            r@ == old(self).text().subrange(old(self).pos(), word_end(old(self).text(), old(self).pos())),
            final(self).pos() == word_end(old(self).text(), old(self).pos()),
    {
        let end = self.word_end_exec();
        let word = string_of_chars(&self.char_data, self.location, end);
        self.location = end;
        word
    }

    /// Reads up to the end of the line; the terminator (`\n`, or `\r` and the character after
    /// it) is consumed and not returned.
    pub fn read_line(&mut self) -> (r: String)
        requires
            old(self).wf(),
        ensures
            final(self).wf(),
            final(self).text() == old(self).text(),
            r@ == old(self).text().subrange(old(self).pos(), line_end(old(self).text(), old(self).pos())),
            final(self).pos() == line_after(old(self).text(), old(self).pos()),
    {
        proof {
            lemma_line_end_bounds(self.text(), self.pos());
        }
        let start = self.location;
        let mut j = self.location;
        while j < self.char_data.len() && self.char_data[j] != '\r' && self.char_data[j] != '\n'
            invariant
                self.wf(),
                start == self.pos(),
                self.pos() <= j <= self.text().len(),
                line_end(self.text(), j as int) == line_end(self.text(), self.pos()),
            decreases self.char_data.len() - j,
        {
            j = j + 1;
        }
        let line = string_of_chars(&self.char_data, start, j);
        if j < self.char_data.len() {
            if self.char_data[j] == '\r' && j + 1 < self.char_data.len() {
                self.location = j + 2;
            } else {
                self.location = j + 1;
            }
        } else {
            self.location = j;
        }
        line
    }

    /// Reads up to the next `watch_for`, which is consumed and not returned; `None` when the
    /// text ends first, with the cursor at the end.
    pub fn read_until(&mut self, watch_for: char) -> (r: Option<String>)
        requires
            old(self).wf(),
        ensures
            final(self).wf(),
            final(self).text() == old(self).text(),
            ({
                let s = old(self).text();
                let e = find_char(s, old(self).pos(), watch_for);
                if e < s.len() {
                    r is Some && r->0@ == s.subrange(old(self).pos(), e) && final(self).pos() == e
                        + 1
                } else {
                    r is None && final(self).pos() == s.len()
                }
            }),
    {
        proof {
            lemma_find_char_bounds(self.text(), self.pos(), watch_for);
        }
        let start = self.location;
        let mut j = self.location;
        while j < self.char_data.len() && self.char_data[j] != watch_for
            invariant
                self.wf(),
                start == self.pos(),
                self.pos() <= j <= self.text().len(),
                find_char(self.text(), j as int, watch_for) == find_char(
                    self.text(),
                    self.pos(),
                    watch_for,
                ),
            decreases self.char_data.len() - j,
        {
            j = j + 1;
        }
        if j < self.char_data.len() {
            let found = string_of_chars(&self.char_data, start, j);
            self.location = j + 1;
            Some(found)
        } else {
            self.location = j;
            None
        }
    }

    /// Skips white space and reads the character after it.
    pub fn next_non_whitespace_char(&mut self) -> (r: Option<char>)
        requires
            old(self).wf(),
        ensures
            final(self).wf(),
            final(self).text() == old(self).text(),
            ({
                let s = old(self).text();
                let k = skip_white(s, old(self).pos());
                if k < s.len() {
                    r == Some(s[k]) && final(self).pos() == k + 1
                } else {
                    r is None && final(self).pos() == s.len()
                }
            }),
    {
        proof {
            lemma_skip_white_bounds(self.text(), self.pos());
        }
        let ghost p0 = self.pos();
        let ghost s0 = self.text();
        while self.location < self.char_data.len() && white_space(self.char_data[self.location])
            invariant
                self.wf(),
                self.text() == s0,
                p0 <= self.pos() <= self.text().len(),
                skip_white(self.text(), self.pos()) == skip_white(self.text(), p0),
            decreases self.char_data.len() - self.location,
        {
            self.location = self.location + 1;
        }
        self.read_char()
    }
}

/// Where the cursor stands after reading the line that starts at `i`.
pub open spec fn line_after(s: Seq<char>, i: int) -> int {
    let e = line_end(s, i);
    if e >= s.len() {
        e
    } else if s[e] == '\r' && e + 1 < s.len() {
        e + 2
    } else {
        e + 1
    }
}

/// `256` to the power `n`.
pub open spec fn pow256(n: nat) -> nat
    decreases n,
{
    if n == 0 {
        1
    } else {
        256 * pow256((n - 1) as nat)
    }
}

/// The number that `b` writes in base 256, least significant byte first.
pub open spec fn le_value(b: Seq<u8>) -> nat
    decreases b.len(),
{
    if b.len() == 0 {
        0
    } else {
        (b[0] + 256 * le_value(b.drop_first())) as nat
    }
}

/// The number of binary digits of `n` (none for zero).
pub open spec fn bits_of(n: nat) -> nat
    decreases n,
{
    if n == 0 {
        0
    } else {
        1 + bits_of(n / 2)
    }
}

/// The value of a string of decimal digits.
pub open spec fn decimal_value(s: Seq<char>) -> nat
    decreases s.len(),
{
    if s.len() == 0 {
        0
    } else {
        (decimal_value(s.drop_last()) * 10 + (s.last() as u32 - '0' as u32)) as nat
    }
}

pub open spec fn is_digit(c: char) -> bool {
    '0' <= c && c <= '9'
}

/// A non-empty string of decimal digits.
pub open spec fn is_decimal(s: Seq<char>) -> bool {
    s.len() > 0 && forall|i: int| 0 <= i < s.len() ==> is_digit(#[trigger] s[i])
}

pub proof fn lemma_le_value_push(b: Seq<u8>, d: u8)
    ensures
        le_value(b.push(d)) == le_value(b) + pow256(b.len()) * d,
    decreases b.len(),
{
    let bp = b.push(d);
    if b.len() == 0 {
        assert(bp.drop_first() == Seq::<u8>::empty());
        assert(le_value(Seq::<u8>::empty()) == 0);
        assert(bp[0] == d);
        assert(le_value(bp) == d);
        assert(pow256(0) == 1);
    } else {
        let rest = b.drop_first();
        assert(bp.drop_first() == rest.push(d));
        assert(bp[0] == b[0]);
        lemma_le_value_push(rest, d);
        let lr = le_value(rest);
        let pr = pow256(rest.len());
        assert(le_value(bp) == b[0] + 256 * (lr + pr * d));
        assert(le_value(b) == b[0] + 256 * lr);
        assert(pow256(b.len()) == 256 * pr);
        assert(256 * (lr + pr * d) == 256 * lr + (256 * pr) * d) by (nonlinear_arith);
    }
}

pub proof fn lemma_le_value_positive(b: Seq<u8>)
    requires
        b.len() > 0,
        b.last() != 0,
    ensures
        le_value(b) >= 1,
        b.len() > 1 ==> le_value(b) >= 256,
    decreases b.len(),
{
    if b.len() > 1 {
        assert(b.drop_first().last() == b.last());
        lemma_le_value_positive(b.drop_first());
    }
}

/// Bytes that write a number without a needless leading zero byte.
pub open spec fn canonical_bytes(b: Seq<u8>) -> bool {
    b.len() >= 1 && (b.len() > 1 ==> b.last() != 0)
}

pub proof fn lemma_canonical_small(b: Seq<u8>)
    requires
        canonical_bytes(b),
    ensures
        b.len() == 1 <==> le_value(b) < 256,
        b.len() == 1 ==> le_value(b) == b[0],
{
    if b.len() > 1 {
        lemma_le_value_positive(b);
    } else {
        assert(b.drop_first().len() == 0);
        assert(le_value(b.drop_first()) == 0);
    }
}

/// Counts the binary digits of a byte: the position of its highest set bit, plus one.
fn highest_bit(input: u8) -> (r: usize)
    ensures
        r == bits_of(input as nat),
        r <= 8,
{
    let mut n = input;
    let mut count: usize = 0;
    proof {
        assert(pow2_of(0) == 1);
    }
    while n > 0
        invariant
            count + bits_of(n as nat) == bits_of(input as nat),
            n as nat * pow2_of(count as nat) <= input,
            count <= 8,
        decreases n,
    {
        proof {
            lemma_pow2_of_small(count as nat, n as nat, input as nat);
        }
        n = n / 2;
        count = count + 1;
    }
    count
}

/// `2` to the power `n`.
pub open spec fn pow2_of(n: nat) -> nat
    decreases n,
{
    if n == 0 {
        1
    } else {
        2 * pow2_of((n - 1) as nat)
    }
}

proof fn lemma_pow2_of_small(count: nat, n: nat, input: nat)
    requires
        n > 0,
        n * pow2_of(count) <= input,
        input <= 255,
    ensures
        count < 8,
        (n / 2) * pow2_of(count + 1) <= input,
{
    if count >= 8 {
        lemma_pow2_of_grows(count);
        assert(n * pow2_of(count) >= pow2_of(count)) by (nonlinear_arith)
            requires
                n > 0,
        ;
    }
    assert(pow2_of(count + 1) == 2 * pow2_of(count));
    assert((n / 2) * (2 * pow2_of(count)) <= n * pow2_of(count)) by (nonlinear_arith);
}

proof fn lemma_pow2_of_grows(count: nat)
    requires
        count >= 8,
    ensures
        pow2_of(count) >= 256,
    decreases count,
{
    if count > 8 {
        lemma_pow2_of_grows((count - 1) as nat);
    } else {
        reveal_with_fuel(pow2_of, 9);
        assert(pow2_of(8) == 256);
    }
}

/// A range fault met when a number is converted to a fixed-width integer.
#[derive(Debug, Clone, Copy, PartialEq, Eq, Structural)]
pub enum NumericFault {
    /// The number is larger than the target type holds.
    TooLarge,
    /// The number is below zero and the target type is unsigned.
    Negative,
    /// The number lies outside the target type's range.
    OutOfRange,
}

/// A floating-point number of any size; it holds no value yet.
#[derive(Debug, Clone, PartialEq)]
pub struct Bigfloat {}

/// A complex number of any size.
#[derive(Debug, Clone, PartialEq)]
pub struct Bigcplx {
    pub real: Bigfloat,
    pub immaginary: Bigfloat,
}

/// An integer of any size: a sign and the magnitude's bytes, least significant first.
#[derive(Debug, PartialEq)]
pub struct Bigint {
    /// `true` when the number is negative.
    pub sign: bool,
    bytes: Vec<u8>,
}

impl Bigint {
    pub closed spec fn magnitude_bytes(&self) -> Seq<u8> {
        self.bytes@
    }

    /// Whether the sign is minus.
    pub closed spec fn negative(&self) -> bool {
        self.sign
    }

    /// The magnitude of the number.
    pub open spec fn magnitude(&self) -> nat {
        le_value(self.magnitude_bytes())
    }

    /// The number.
    pub open spec fn value(&self) -> int {
        if self.negative() {
            -self.magnitude()
        } else {
            self.magnitude() as int
        }
    }

    #[verifier::type_invariant]
    closed spec fn inv(&self) -> bool {
        canonical_bytes(self.bytes@) && self.bytes.len() < usize::MAX / 16
    }

    /// A copy of this number.
    pub fn duplicate(&self) -> (r: Bigint)
        ensures
            r.magnitude_bytes() == self.magnitude_bytes(),
            r.negative() == self.negative(),
            r.value() == self.value(),
    {
        proof {
            use_type_invariant(self);
        }
        let bytes = self.bytes.clone();
        assert(bytes@ =~= self.bytes@);
        Bigint { sign: self.sign, bytes }
    }

    /// The number of bits that the number takes: those of its magnitude, and one for a minus sign.
    pub open spec fn spec_bit_width(&self) -> nat {
        let b = self.magnitude_bytes();
        (8 * (b.len() - 1) + bits_of(b.last() as nat) + if self.negative() {
            1int
        } else {
            0int
        }) as nat
    }

    pub fn from_u8(input: u8) -> (r: Bigint)
        ensures
            r.value() == input,
            !r.negative(),
    {
        let r = Bigint { sign: false, bytes: vec![input] };
        proof {
            lemma_canonical_small(r.magnitude_bytes());
        }
        r
    }

    pub fn from_i8(input: i8) -> (r: Bigint)
        ensures
            r.value() == input,
            r.negative() <==> input < 0,
    {
        let magnitude: u8 = if input < 0 {
            (0i16 - input as i16) as u8
        } else {
            input as u8
        };
        let r = Bigint { sign: input < 0, bytes: vec![magnitude] };
        proof {
            lemma_canonical_small(r.magnitude_bytes());
        }
        r
    }

    pub fn from_i64(input: i64) -> (r: Bigint)
        ensures
            r.value() == input,
            r.negative() <==> input < 0,
    {
        let magnitude: u64 = if input < 0 {
            (0i128 - input as i128) as u64
        } else {
            input as u64
        };
        let bytes = bytes_of_u64(magnitude);
        Bigint { sign: input < 0, bytes }
    }

    /// Reads a string of decimal digits; `None` when `input` is empty, holds anything else, or
    /// is longer than memory can hold a number for.
    pub fn from_str(input: &str) -> (r: Option<Bigint>)
        ensures
            is_decimal(input@) && input@.len() < usize::MAX / 32 <==> r is Some,
            r is Some ==> !r->0.negative() && r->0.value() == decimal_value(input@),
    {
        let chars = chars_of(input);
        if chars.len() == 0 || chars.len() >= usize::MAX / 32 {
            return None;
        }
        let mut bytes: Vec<u8> = vec![0u8];
        proof {
            assert(bytes@.drop_first().len() == 0);
            assert(le_value(bytes@.drop_first()) == 0);
            assert(chars@.take(0).len() == 0);
        }
        let mut i: usize = 0;
        while i < chars.len()
            invariant
                chars@ == input@,
                0 <= i <= chars.len(),
                chars.len() < usize::MAX / 32,
                1 <= bytes.len() <= i + 1,
                forall|k: int| 0 <= k < i ==> is_digit(#[trigger] chars@[k]),
                le_value(bytes@) == decimal_value(chars@.take(i as int)),
            decreases chars.len() - i,
        {
            let c = chars[i];
            if !('0' <= c && c <= '9') {
                return None;
            }
            let d = (c as u32 - '0' as u32) as u8;
            mul_add_small(&mut bytes, d);
            proof {
                assert(chars@.take(i + 1).drop_last() == chars@.take(i as int));
                assert(chars@.take(i + 1).last() == c);
            }
            i = i + 1;
        }
        proof {
            assert(chars@.take(i as int) == chars@);
        }
        trim_bytes(&mut bytes);
        Some(Bigint { sign: false, bytes })
    }

    pub fn to_u8(&self) -> (r: Result<u8, NumericFault>)
        ensures
            0 <= self.value() <= 255 <==> r is Ok,
            r is Ok ==> r->Ok_0 == self.value(),
            self.value() > 255 ==> r == Err::<u8, NumericFault>(NumericFault::TooLarge),
            self.value() < 0 ==> r == Err::<u8, NumericFault>(NumericFault::Negative),
    {
        proof {
            use_type_invariant(self);
            lemma_canonical_small(self.magnitude_bytes());
        }
        if self.bytes.len() == 1 {
            let m = self.bytes[0];
            if !self.sign || m == 0 {
                Ok(m)
            } else {
                Err(NumericFault::Negative)
            }
        } else if self.sign {
            Err(NumericFault::Negative)
        } else {
            Err(NumericFault::TooLarge)
        }
    }

    pub fn to_i8(&self) -> (r: Result<i8, NumericFault>)
        ensures
            -128 <= self.value() <= 127 <==> r is Ok,
            r is Ok ==> r->Ok_0 == self.value(),
            r is Err ==> r == Err::<i8, NumericFault>(NumericFault::OutOfRange),
    {
        proof {
            use_type_invariant(self);
            lemma_canonical_small(self.magnitude_bytes());
        }
        if self.bytes.len() == 1 {
            let m = self.bytes[0];
            if !self.sign && m <= 127 {
                Ok(m as i8)
            } else if self.sign && m <= 128 {
                Ok((0i16 - m as i16) as i8)
            } else {
                Err(NumericFault::OutOfRange)
            }
        } else {
            Err(NumericFault::OutOfRange)
        }
    }

    /// The magnitude's bytes, least significant first, for a number that is not negative.
    pub fn to_le_bytes(&self) -> (r: Result<Vec<u8>, NumericFault>)
        ensures
            self.value() >= 0 <==> r is Ok,
            r is Ok ==> r->Ok_0@ == self.magnitude_bytes() && le_value(r->Ok_0@) == self.value()
                && canonical_bytes(r->Ok_0@),
            r is Err ==> r == Err::<Vec<u8>, NumericFault>(NumericFault::Negative),
    {
        proof {
            use_type_invariant(self);
            lemma_canonical_small(self.magnitude_bytes());
        }
        if !self.sign || (self.bytes.len() == 1 && self.bytes[0] == 0) {
            Ok(self.bytes.clone())
        } else {
            proof {
                if self.bytes@.len() == 1 {
                    assert(self.magnitude() == self.bytes@[0]);
                }
            }
            Err(NumericFault::Negative)
        }
    }

    /// The number of bits that the number takes: those of its magnitude, and one for a minus sign.
    pub fn bit_width(&self) -> (r: usize)
        ensures
            r == self.spec_bit_width(),
    {
        proof {
            use_type_invariant(self);
        }
        let last = self.bytes[self.bytes.len() - 1];
        highest_bit(last) + 8 * (self.bytes.len() - 1) + (if self.sign {
            1
        } else {
            0
        })
    }
}

/// Drops leading zero bytes, keeping at least one byte.
fn trim_bytes(bytes: &mut Vec<u8>)
    requires
        old(bytes).len() >= 1,
    ensures
        canonical_bytes(final(bytes)@),
        final(bytes).len() <= old(bytes).len(),
        le_value(final(bytes)@) == le_value(old(bytes)@),
{
    while bytes.len() > 1 && bytes[bytes.len() - 1] == 0
        invariant
            1 <= bytes.len() <= old(bytes).len(),
            le_value(bytes@) == le_value(old(bytes)@),
        decreases bytes.len(),
    {
        let ghost before = bytes@;
        bytes.pop();
        proof {
            assert(before == bytes@.push(0u8));
            lemma_le_value_push(bytes@, 0u8);
        }
    }
}

impl Clone for Bigint {
    fn clone(&self) -> (r: Bigint)
        ensures
            r.value() == self.value(),
    {
        self.duplicate()
    }
}

/// The bytes of `n`, least significant first, without a needless leading zero byte.
fn bytes_of_u64(n: u64) -> (r: Vec<u8>)
    ensures
        canonical_bytes(r@),
        le_value(r@) == n,
        r.len() <= 9,
{
    let mut out: Vec<u8> = Vec::new();
    let mut m = n;
    proof {
        assert(out@.len() == 0);
        assert(le_value(out@) == 0);
        assert(pow256(out.len() as nat) == 1);
        assert(pow256(out.len() as nat) * m == m);
    }
    while m >= 256
        invariant
            le_value(out@) + pow256(out.len() as nat) * m == n,
            out.len() <= 8,
            out.len() > 0 ==> m >= 1,
            m <= n,
            out.len() as nat > 0 ==> m * pow256(out.len() as nat) <= n,
        decreases m,
    {
        let d = (m % 256) as u8;
        proof {
            lemma_le_value_push(out@, d);
            lemma_pow256_positive(out.len() as nat);
            let p = pow256(out.len() as nat);
            assert(p * m == p * (m % 256) + (256 * p) * (m / 256)) by (nonlinear_arith)
                requires m == (m % 256) + 256 * (m / 256);
            assert((m / 256) * (256 * p) <= m * p) by (nonlinear_arith)
                requires p >= 1;
            lemma_pow256_positive(out.len() as nat);
        }
        out.push(d);
        m = m / 256;
        proof {
            lemma_pow256_bound(out.len() as nat, m as nat, n as nat);
        }
    }
    let ghost before = out@;
    out.push(m as u8);
    proof {
        lemma_le_value_push(before, m as u8);
    }
    out
}

pub proof fn lemma_pow256_positive(n: nat)
    ensures
        pow256(n) >= 1,
    decreases n,
{
    if n > 0 {
        lemma_pow256_positive((n - 1) as nat);
    }
}

proof fn lemma_pow256_bound(len: nat, m: nat, n: nat)
    requires
        m >= 1,
        m * pow256(len) <= n,
        n < 0x1_0000_0000_0000_0000,
    ensures
        len <= 8,
{
    if len > 8 {
        lemma_pow256_grows(len);
        assert(m * pow256(len) >= pow256(len)) by (nonlinear_arith)
            requires m >= 1;
    }
}

proof fn lemma_pow256_grows(len: nat)
    requires
        len >= 9,
    ensures
        pow256(len) >= 0x1_0000_0000_0000_0000,
    decreases len,
{
    if len > 9 {
        lemma_pow256_grows((len - 1) as nat);
    } else {
        reveal_with_fuel(pow256, 10);
        assert(pow256(8) == 0x1_0000_0000_0000_0000);
        assert(pow256(9) == 256 * pow256(8));
    }
}

/// Multiplies the number that `bytes` writes by ten and adds `digit`.
fn mul_add_small(bytes: &mut Vec<u8>, digit: u8)
    requires
        old(bytes).len() >= 1,
        digit < 10,
    ensures
        old(bytes).len() <= final(bytes).len() <= old(bytes).len() + 1,
        le_value(final(bytes)@) == le_value(old(bytes)@) * 10 + digit,
{
    let ghost orig = bytes@;
    let mut carry: u32 = digit as u32;
    let mut i: usize = 0;
    proof {
        assert(bytes@.take(0) == Seq::<u8>::empty());
        assert(orig.take(0) == Seq::<u8>::empty());
        assert(le_value(Seq::<u8>::empty()) == 0);
        assert(pow256(0) == 1);
    }
    while i < bytes.len()
        invariant
            bytes.len() == orig.len(),
            0 <= i <= bytes.len(),
            carry < 256,
            bytes@.skip(i as int) == orig.skip(i as int),
            le_value(bytes@.take(i as int)) + pow256(i as nat) * carry == le_value(orig.take(i as int)) * 10 + digit,
        decreases bytes.len() - i,
    {
        let b = bytes[i];
        let t: u32 = b as u32 * 10 + carry;
        let low = (t % 256) as u8;
        let ghost old_bytes = bytes@;
        bytes.set(i, low);
        proof {
            assert(bytes@.take(i + 1) == bytes@.take(i as int).push(low));
            assert(bytes@.take(i as int) == old_bytes.take(i as int));
            assert(orig.take(i + 1) == orig.take(i as int).push(b)) by {
                assert(orig[i as int] == old_bytes.skip(i as int)[0]);
            }
            lemma_le_value_push(old_bytes.take(i as int), low);
            lemma_le_value_push(orig.take(i as int), b);
            assert(bytes@.skip(i + 1) == orig.skip(i + 1)) by {
                assert(old_bytes.skip(i + 1) == old_bytes.skip(i as int).skip(1));
                assert(orig.skip(i + 1) == orig.skip(i as int).skip(1));
            }
            let p = pow256(i as nat);
            assert(pow256((i + 1) as nat) == 256 * p);
            assert(p * (low as int) + (256 * p) * (t / 256) == p * (b as int) * 10 + p * (carry as int))
                by (nonlinear_arith)
                requires t == b * 10 + carry, low == t % 256;
        }
        carry = t / 256;
        i = i + 1;
    }
    proof {
        assert(bytes@.take(i as int) == bytes@);
        assert(orig.take(i as int) == orig);
    }
    if carry > 0 {
        let ghost before = bytes@;
        bytes.push(carry as u8);
        proof {
            lemma_le_value_push(before, carry as u8);
        }
    }
}

/// The digit character for `d` (below ten).
pub open spec fn digit_char(d: nat) -> char {
    ((d + 48) as u8) as char
}

/// The decimal numeral of `n`, without leading zeros.
pub open spec fn decimal_of(n: nat) -> Seq<char>
    decreases n,
{
    if n < 10 {
        seq![digit_char(n)]
    } else {
        decimal_of(n / 10).push(digit_char(n % 10))
    }
}

/// Writes `n` in decimal.
pub fn decimal_string(n: usize) -> (r: String)
    ensures
        r@ == decimal_of(n as nat),
    decreases n,
{
    if n < 10 {
        let mut s = String::new();
        push_char(&mut s, ((n + 48) as u8) as char);
        s
    } else {
        let mut s = decimal_string(n / 10);
        push_char(&mut s, ((n % 10 + 48) as u8) as char);
        s
    }
}

/// Why bytes could not be read.
#[derive(Debug, Clone, Copy, PartialEq, Eq, Structural)]
pub enum ReadFault {
    /// The bytes end before the count asked for.
    UnexpectedEnd,
    /// The bytes are not UTF-8 text.
    InvalidText,
}

/// A cursor over bytes held in memory.
pub struct ByteReader {
    bytes: Vec<u8>,
    position: usize,
}

impl ByteReader {
    /// All the bytes.
    pub closed spec fn data(&self) -> Seq<u8> {
        self.bytes@
    }

    /// The index of the next byte to be read.
    pub closed spec fn at(&self) -> int {
        self.position as int
    }

    pub open spec fn wf(&self) -> bool {
        0 <= self.at() <= self.data().len()
    }

    /// How many bytes are left to read.
    pub fn remaining(&self) -> (r: usize)
        requires
            self.wf(),
        ensures
            r == self.data().len() - self.at(),
    {
        self.bytes.len() - self.position
    }

    pub fn from_bytes(bytes: Vec<u8>) -> (r: ByteReader)
        ensures
            r.wf(),
            r.data() == bytes@,
            r.at() == 0,
    {
        ByteReader { bytes, position: 0 }
    }
}

/// Reads `num_bytes` bytes from `reader`; fails, reading nothing, when fewer are left.
pub fn read_n_bytes(reader: &mut ByteReader, num_bytes: usize) -> (r: Result<Vec<u8>, ReadFault>)
    requires
        old(reader).wf(),
    ensures
        final(reader).wf(),
        final(reader).data() == old(reader).data(),
        old(reader).at() + num_bytes <= old(reader).data().len() ==> r is Ok && r->Ok_0@
            == old(reader).data().subrange(old(reader).at(), old(reader).at() + num_bytes)
            && final(reader).at() == old(reader).at() + num_bytes,
        old(reader).at() + num_bytes > old(reader).data().len() ==> r == Err::<Vec<u8>, ReadFault>(
            ReadFault::UnexpectedEnd,
        ) && final(reader).at() == old(reader).at(),
{
    if num_bytes > reader.bytes.len() - reader.position {
        return Err(ReadFault::UnexpectedEnd);
    }
    let mut buffer: Vec<u8> = Vec::new();
    let start = reader.position;
    let mut i: usize = 0;
    while i < num_bytes
        invariant
            start == old(reader).at(),
            reader.bytes == old(reader).bytes,
            reader.position == old(reader).position,
            start + num_bytes <= reader.bytes.len(),
            i <= num_bytes,
            buffer@ == reader.bytes@.subrange(start as int, start + i),
        decreases num_bytes - i,
    {
        buffer.push(reader.bytes[start + i]);
        assert(reader.bytes@.subrange(start as int, start + i + 1) =~= reader.bytes@.subrange(start as int, start + i).push(reader.bytes@[start + i]));
        i = i + 1;
    }
    reader.position = start + num_bytes;
    Ok(buffer)
}

pub proof fn lemma_decimal_len(n: nat)
    ensures
        decimal_of(n).len() >= 1,
        n >= 10 ==> decimal_of(n).len() >= 2,
    decreases n,
{
    if n >= 10 {
        lemma_decimal_len(n / 10);
    }
}

/// Different numbers have different numerals.
pub proof fn lemma_decimal_injective(n: nat, m: nat)
    requires
        decimal_of(n) == decimal_of(m),
    ensures
        n == m,
    decreases n,
{
    lemma_decimal_len(n);
    lemma_decimal_len(m);
    if n < 10 && m < 10 {
        assert(decimal_of(n)[0] == digit_char(n));
        assert(decimal_of(m)[0] == digit_char(m));
    } else if n >= 10 && m >= 10 {
        let a = decimal_of(n);
        let b = decimal_of(m);
        assert(a.drop_last() == decimal_of(n / 10));
        assert(b.drop_last() == decimal_of(m / 10));
        lemma_decimal_injective(n / 10, m / 10);
        assert(a.last() == digit_char(n % 10));
        assert(b.last() == digit_char(m % 10));
    }
}

} // verus!
