use vstd::prelude::*;

use crate::utils::{
    chars_of, find_char, is_decimal, decimal_value, lemma_find_char_bounds,
    lemma_word_end_bounds, lemma_skip_white_bounds, lemma_line_end_bounds, line_after, line_end, push_char, skip_white,
    word_end, Bigcplx, Bigfloat, Bigint, StringReader,
};

verus! {

/// The reserved words of the language.
#[derive(Debug, Clone, Copy, PartialEq, Eq, Structural)]
pub enum Keyword {
    /// The main block.
    Kmain,
    /// Disables a contextual reference or import.
    Kdisable,
    /// A platform capability requirement.
    Ksystem,
    /// A variable.
    Klet,
    /// An import of a project file.
    Kfile,
    /// An external library.
    Klibrary,
    /// A `for` loop.
    Kfor,
    /// A namespace.
    Knamespace,
    /// A structured type.
    Ktype,
    /// A trait.
    Ktrait,
    /// A return from the current block.
    Kreturn,
    /// Marks fields of a structured type as public.
    Kpublic,
    /// An enumerated type.
    Kenum,
    /// An import from the standard library.
    Kinclude,
}

/// The keyword that the word `w` spells, if any.
pub open spec fn keyword_of(w: Seq<char>) -> Option<Keyword> {
    if w == "system"@ {
        Some(Keyword::Ksystem)
    } else if w == "main"@ {
        Some(Keyword::Kmain)
    } else if w == "disable"@ {
        Some(Keyword::Kdisable)
    } else if w == "let"@ {
        Some(Keyword::Klet)
    } else if w == "return"@ {
        Some(Keyword::Kreturn)
    } else if w == "file"@ {
        Some(Keyword::Kfile)
    } else if w == "library"@ {
        Some(Keyword::Klibrary)
    } else if w == "for"@ {
        Some(Keyword::Kfor)
    } else if w == "namespace"@ {
        Some(Keyword::Knamespace)
    } else if w == "type"@ {
        Some(Keyword::Ktype)
    } else if w == "trait"@ {
        Some(Keyword::Ktrait)
    } else if w == "public"@ {
        Some(Keyword::Kpublic)
    } else if w == "enum"@ {
        Some(Keyword::Kenum)
    } else if w == "include"@ {
        Some(Keyword::Kinclude)
    } else {
        None
    }
}

/// Tests whether the characters `w` spell `lit`.
pub fn chars_equal(w: &Vec<char>, lit: &str) -> (r: bool)
    ensures
        r == (w@ == lit@),
{
    let l = chars_of(lit);
    if w.len() != l.len() {
        return false;
    }
    let mut i: usize = 0;
    while i < w.len()
        invariant
            l@ == lit@,
            w.len() == l.len(),
            0 <= i <= w.len(),
            forall|k: int| 0 <= k < i ==> w@[k] == l@[k],
        decreases w.len() - i,
    {
        if w[i] != l[i] {
            return false;
        }
        i = i + 1;
    }
    assert(w@ == l@);
    true
}

/// The keyword that the word `w` spells, if any.
pub fn keyword_for(w: &Vec<char>) -> (r: Option<Keyword>)
    ensures
        r == keyword_of(w@),
{
    if chars_equal(w, "system") {
        Some(Keyword::Ksystem)
    } else if chars_equal(w, "main") {
        Some(Keyword::Kmain)
    } else if chars_equal(w, "disable") {
        Some(Keyword::Kdisable)
    } else if chars_equal(w, "let") {
        Some(Keyword::Klet)
    } else if chars_equal(w, "return") {
        Some(Keyword::Kreturn)
    } else if chars_equal(w, "file") {
        Some(Keyword::Kfile)
    } else if chars_equal(w, "library") {
        Some(Keyword::Klibrary)
    } else if chars_equal(w, "for") {
        Some(Keyword::Kfor)
    } else if chars_equal(w, "namespace") {
        Some(Keyword::Knamespace)
    } else if chars_equal(w, "type") {
        Some(Keyword::Ktype)
    } else if chars_equal(w, "trait") {
        Some(Keyword::Ktrait)
    } else if chars_equal(w, "public") {
        Some(Keyword::Kpublic)
    } else if chars_equal(w, "enum") {
        Some(Keyword::Kenum)
    } else if chars_equal(w, "include") {
        Some(Keyword::Kinclude)
    } else {
        None
    }
}

/// One lexical unit of source text.
#[derive(Debug, PartialEq)]
pub enum Symbol {
    /// `// text`
    Comment(String),
    /// `/* text */`
    Comments(String),
    /// `{`
    OpenBrace,
    /// `}`
    CloseBrace,
    /// `[`
    OpenBracket,
    /// `]`
    CloseBracket,
    /// `(`
    OpenParenthesis,
    /// `)`
    CloseParenthesis,
    /// `|symbols|`
    Closure(Vec<Symbol>),
    /// `=>`
    Alias,
    /// `=>!`
    ExportedAlias,
    /// `->`
    Becomes,
    /// `<-`
    Parent,
    /// `~`
    Module,
    /// `;`
    PhraseEnd,
    /// `:`
    Is,
    /// `=`
    Assign,
    /// `==`
    Equals,
    /// `!=`
    DoesNotEqual,
    /// `=~`
    ApproxEquals,
    /// `!~`
    ApproxDoesNotEqual,
    /// `|` followed by a space
    BitOr,
    /// `&`
    BitAnd,
    /// `^`
    BitXor,
    /// `||`
    LogicOr,
    /// `&&`
    LogicAnd,
    /// `^^`
    LogicXor,
    /// `!`
    LogicNot,
    /// `**`
    Power,
    /// `+`
    Add,
    /// `-`
    Subtract,
    /// `/`
    Divide,
    /// `*`
    Multiply,
    /// `%`
    Modulo,
    /// `<`
    LessThan,
    /// `>`
    MoreThan,
    /// `<=`
    LessThanOrEqual,
    /// `>=`
    MoreThanOrEqual,
    /// `,`
    Also,
    /// `<<`
    LeftShift,
    /// `>>`
    RightShift,
    /// `!!`
    Compiler,
    /// `"text"`
    String(String),
    /// A reserved word.
    Keyword(Keyword),
    /// A word of decimal digits.
    Integer(Bigint),
    /// A floating-point literal.
    Float(Bigfloat),
    /// A complex literal.
    Complex(Bigcplx),
    /// Any other word.
    Label(String),
}

/// What a [Symbol] stands for: texts as character sequences, integers as numbers.
pub enum SymbolView {
    Comment(Seq<char>),
    Comments(Seq<char>),
    OpenBrace,
    CloseBrace,
    OpenBracket,
    CloseBracket,
    OpenParenthesis,
    CloseParenthesis,
    Closure(Seq<SymbolView>),
    Alias,
    ExportedAlias,
    Becomes,
    Parent,
    Module,
    PhraseEnd,
    Is,
    Assign,
    Equals,
    DoesNotEqual,
    ApproxEquals,
    ApproxDoesNotEqual,
    BitOr,
    BitAnd,
    BitXor,
    LogicOr,
    LogicAnd,
    LogicXor,
    LogicNot,
    Power,
    Add,
    Subtract,
    Divide,
    Multiply,
    Modulo,
    LessThan,
    MoreThan,
    LessThanOrEqual,
    MoreThanOrEqual,
    Also,
    LeftShift,
    RightShift,
    Compiler,
    String(Seq<char>),
    Keyword(Keyword),
    Integer(int),
    Float,
    Complex,
    Label(Seq<char>),
}

/// The view of a symbol.
pub open spec fn symbol_view(s: Symbol) -> SymbolView
    decreases s,
{
    match s {
        Symbol::Comment(t) => SymbolView::Comment(t@),
        Symbol::Comments(t) => SymbolView::Comments(t@),
        Symbol::OpenBrace => SymbolView::OpenBrace,
        Symbol::CloseBrace => SymbolView::CloseBrace,
        Symbol::OpenBracket => SymbolView::OpenBracket,
        Symbol::CloseBracket => SymbolView::CloseBracket,
        Symbol::OpenParenthesis => SymbolView::OpenParenthesis,
        Symbol::CloseParenthesis => SymbolView::CloseParenthesis,
        Symbol::Closure(v) => SymbolView::Closure(
            Seq::new(
                v@.len(),
                |i: int|
                    if 0 <= i < v@.len() {
                        symbol_view(v@[i])
                    } else {
                        SymbolView::PhraseEnd
                    },
            ),
        ),
        Symbol::Alias => SymbolView::Alias,
        Symbol::ExportedAlias => SymbolView::ExportedAlias,
        Symbol::Becomes => SymbolView::Becomes,
        Symbol::Parent => SymbolView::Parent,
        Symbol::Module => SymbolView::Module,
        Symbol::PhraseEnd => SymbolView::PhraseEnd,
        Symbol::Is => SymbolView::Is,
        Symbol::Assign => SymbolView::Assign,
        Symbol::Equals => SymbolView::Equals,
        Symbol::DoesNotEqual => SymbolView::DoesNotEqual,
        Symbol::ApproxEquals => SymbolView::ApproxEquals,
        Symbol::ApproxDoesNotEqual => SymbolView::ApproxDoesNotEqual,
        Symbol::BitOr => SymbolView::BitOr,
        Symbol::BitAnd => SymbolView::BitAnd,
        Symbol::BitXor => SymbolView::BitXor,
        Symbol::LogicOr => SymbolView::LogicOr,
        Symbol::LogicAnd => SymbolView::LogicAnd,
        Symbol::LogicXor => SymbolView::LogicXor,
        Symbol::LogicNot => SymbolView::LogicNot,
        Symbol::Power => SymbolView::Power,
        Symbol::Add => SymbolView::Add,
        Symbol::Subtract => SymbolView::Subtract,
        Symbol::Divide => SymbolView::Divide,
        Symbol::Multiply => SymbolView::Multiply,
        Symbol::Modulo => SymbolView::Modulo,
        Symbol::LessThan => SymbolView::LessThan,
        Symbol::MoreThan => SymbolView::MoreThan,
        Symbol::LessThanOrEqual => SymbolView::LessThanOrEqual,
        Symbol::MoreThanOrEqual => SymbolView::MoreThanOrEqual,
        Symbol::Also => SymbolView::Also,
        Symbol::LeftShift => SymbolView::LeftShift,
        Symbol::RightShift => SymbolView::RightShift,
        Symbol::Compiler => SymbolView::Compiler,
        Symbol::String(t) => SymbolView::String(t@),
        Symbol::Keyword(k) => SymbolView::Keyword(k),
        Symbol::Integer(b) => SymbolView::Integer(b.value()),
        Symbol::Float(_) => SymbolView::Float,
        Symbol::Complex(_) => SymbolView::Complex,
        Symbol::Label(t) => SymbolView::Label(t@),
    }
}

/// The views of a sequence of symbols.
pub open spec fn symbols_view(v: Seq<Symbol>) -> Seq<SymbolView> {
    Seq::new(v.len(), |i: int| symbol_view(v[i]))
}

/// A symbol of one to three characters that needs no scanning: `c` and the two characters
/// after it, with how many characters after `c` it takes.
pub open spec fn operator_of(c: char, second: Option<char>, third: Option<char>) -> Option<
    (SymbolView, int),
> {
    if c == ';' {
        Some((SymbolView::PhraseEnd, 0))
    } else if c == '~' {
        Some((SymbolView::Module, 0))
    } else if c == '+' {
        Some((SymbolView::Add, 0))
    } else if c == '%' {
        Some((SymbolView::Modulo, 0))
    } else if c == ':' {
        Some((SymbolView::Is, 0))
    } else if c == '{' {
        Some((SymbolView::OpenBrace, 0))
    } else if c == '}' {
        Some((SymbolView::CloseBrace, 0))
    } else if c == '[' {
        Some((SymbolView::OpenBracket, 0))
    } else if c == ']' {
        Some((SymbolView::CloseBracket, 0))
    } else if c == '(' {
        Some((SymbolView::OpenParenthesis, 0))
    } else if c == ')' {
        Some((SymbolView::CloseParenthesis, 0))
    } else if c == ',' {
        Some((SymbolView::Also, 0))
    } else if c == '!' {
        if second == Some('=') {
            Some((SymbolView::DoesNotEqual, 1))
        } else if second == Some('!') {
            Some((SymbolView::Compiler, 1))
        } else {
            Some((SymbolView::LogicNot, 0))
        }
    } else if c == '*' {
        if second == Some('*') {
            Some((SymbolView::Power, 1))
        } else {
            Some((SymbolView::Multiply, 0))
        }
    } else if c == '=' {
        if second == Some('>') {
            if third == Some('!') {
                Some((SymbolView::ExportedAlias, 2))
            } else {
                Some((SymbolView::Alias, 1))
            }
        } else if second == Some('=') {
            Some((SymbolView::Equals, 1))
        } else {
            Some((SymbolView::Assign, 0))
        }
    } else if c == '/' {
        Some((SymbolView::Divide, 0))
    } else if c == '&' {
        if second == Some('&') {
            Some((SymbolView::LogicAnd, 1))
        } else {
            Some((SymbolView::BitAnd, 0))
        }
    } else if c == '^' {
        if second == Some('^') {
            Some((SymbolView::LogicXor, 1))
        } else {
            Some((SymbolView::BitXor, 0))
        }
    } else if c == '-' {
        if second == Some('>') {
            Some((SymbolView::Becomes, 1))
        } else {
            Some((SymbolView::Subtract, 0))
        }
    } else if c == '<' {
        if second == Some('-') {
            Some((SymbolView::Parent, 1))
        } else if second == Some('=') {
            Some((SymbolView::LessThanOrEqual, 1))
        } else if second == Some('<') {
            Some((SymbolView::LeftShift, 1))
        } else {
            Some((SymbolView::LessThan, 0))
        }
    } else if c == '>' {
        if second == Some('=') {
            Some((SymbolView::MoreThanOrEqual, 1))
        } else if second == Some('>') {
            Some((SymbolView::RightShift, 1))
        } else {
            Some((SymbolView::MoreThan, 0))
        }
    } else if c == '|' {
        if second == Some('|') {
            Some((SymbolView::LogicOr, 1))
        } else {
            Some((SymbolView::BitOr, 0))
        }
    } else {
        None
    }
}

/// The symbol of [operator_of], built.
fn operator_symbol(c: char, second: Option<char>, third: Option<char>) -> (r: Option<(Symbol, usize)>)
    ensures
        match operator_of(c, second, third) {
            Some((v, n)) => r is Some && symbol_view((r->0).0) == v && (r->0).1 == n,
            None => r is None,
        },
{
    if c == ';' {
        Some((Symbol::PhraseEnd, 0))
    } else if c == '~' {
        Some((Symbol::Module, 0))
    } else if c == '+' {
        Some((Symbol::Add, 0))
    } else if c == '%' {
        Some((Symbol::Modulo, 0))
    } else if c == ':' {
        Some((Symbol::Is, 0))
    } else if c == '{' {
        Some((Symbol::OpenBrace, 0))
    } else if c == '}' {
        Some((Symbol::CloseBrace, 0))
    } else if c == '[' {
        Some((Symbol::OpenBracket, 0))
    } else if c == ']' {
        Some((Symbol::CloseBracket, 0))
    } else if c == '(' {
        Some((Symbol::OpenParenthesis, 0))
    } else if c == ')' {
        Some((Symbol::CloseParenthesis, 0))
    } else if c == ',' {
        Some((Symbol::Also, 0))
    } else if c == '!' {
        if second == Some('=') {
            Some((Symbol::DoesNotEqual, 1))
        } else if second == Some('!') {
            Some((Symbol::Compiler, 1))
        } else {
            Some((Symbol::LogicNot, 0))
        }
    } else if c == '*' {
        if second == Some('*') {
            Some((Symbol::Power, 1))
        } else {
            Some((Symbol::Multiply, 0))
        }
    } else if c == '=' {
        if second == Some('>') {
            if third == Some('!') {
                Some((Symbol::ExportedAlias, 2))
            } else {
                Some((Symbol::Alias, 1))
            }
        } else if second == Some('=') {
            Some((Symbol::Equals, 1))
        } else {
            Some((Symbol::Assign, 0))
        }
    } else if c == '/' {
        Some((Symbol::Divide, 0))
    } else if c == '&' {
        if second == Some('&') {
            Some((Symbol::LogicAnd, 1))
        } else {
            Some((Symbol::BitAnd, 0))
        }
    } else if c == '^' {
        if second == Some('^') {
            Some((Symbol::LogicXor, 1))
        } else {
            Some((Symbol::BitXor, 0))
        }
    } else if c == '-' {
        if second == Some('>') {
            Some((Symbol::Becomes, 1))
        } else {
            Some((Symbol::Subtract, 0))
        }
    } else if c == '<' {
        if second == Some('-') {
            Some((Symbol::Parent, 1))
        } else if second == Some('=') {
            Some((Symbol::LessThanOrEqual, 1))
        } else if second == Some('<') {
            Some((Symbol::LeftShift, 1))
        } else {
            Some((Symbol::LessThan, 0))
        }
    } else if c == '>' {
        if second == Some('=') {
            Some((Symbol::MoreThanOrEqual, 1))
        } else if second == Some('>') {
            Some((Symbol::RightShift, 1))
        } else {
            Some((Symbol::MoreThan, 0))
        }
    } else if c == '|' {
        if second == Some('|') {
            Some((Symbol::LogicOr, 1))
        } else {
            Some((Symbol::BitOr, 0))
        }
    } else {
        None
    }
}

/// Why source text could not be split into symbols.
#[derive(Debug, Clone, Copy, PartialEq, Eq, Structural)]
pub enum LexFault {
    /// A string literal has no closing `"`.
    UnterminatedString,
    /// A `/*` comment has no closing `*/`.
    UnterminatedComment,
    /// A `|` group has no closing `|`.
    UnterminatedClosure,
}

/// The outcome of reading one symbol.
pub enum LexStep {
    /// Only white space is left.
    End,
    /// The text cannot be read.
    Fault(LexFault),
    /// A symbol, and the index just after it.
    Token(SymbolView, int),
}

/// The character at `i`, if any.
pub open spec fn char_at(s: Seq<char>, i: int) -> Option<char> {
    if 0 <= i < s.len() {
        Some(s[i])
    } else {
        None
    }
}

/// The index of the first `"` at or after `j` that does not follow a `\` (or the length).
pub open spec fn string_end(s: Seq<char>, j: int) -> int
    decreases s.len() - j,
{
    if j < 1 || j >= s.len() {
        s.len() as int
    } else if s[j] == '"' && s[j - 1] != '\\' {
        j
    } else {
        string_end(s, j + 1)
    }
}

/// The index of the first `*/` at or after `j` (or the length).
pub open spec fn comment_end(s: Seq<char>, j: int) -> int
    decreases s.len() - j,
{
    if j < 0 || j >= s.len() {
        s.len() as int
    } else if s[j] == '*' && j + 1 < s.len() && s[j + 1] == '/' {
        j
    } else {
        comment_end(s, j + 1)
    }
}

/// The word that starts with the character at `k`: it runs to white space or a reserved character.
pub open spec fn word_at(s: Seq<char>, k: int) -> Seq<char> {
    seq![s[k]] + s.subrange(k + 1, word_end(s, k + 1))
}

/// Reads one symbol of `s`, starting at `p`.
pub open spec fn lex_one(s: Seq<char>, p: int) -> LexStep
    decreases s.len(), s.len() - p, 0int,
{
    let k = skip_white(s, p);
    if p < 0 || p > s.len() || k < p || k >= s.len() {
        LexStep::End
    } else {
        let c = s[k];
        let q = k + 1;
        let word = word_at(s, k);
        if keyword_of(word) is Some {
            LexStep::Token(SymbolView::Keyword(keyword_of(word)->0), word_end(s, q))
        } else if c == '"' {
            let e = string_end(s, q);
            if e < s.len() {
                LexStep::Token(SymbolView::String(s.subrange(q, e)), e + 1)
            } else {
                LexStep::Fault(LexFault::UnterminatedString)
            }
        } else if c == '/' && char_at(s, q) == Some('/') {
            LexStep::Token(
                SymbolView::Comment(s.subrange(q + 1, line_end(s, q + 1))),
                line_after(s, q + 1),
            )
        } else if c == '/' && char_at(s, q) == Some('*') {
            let e = comment_end(s, q + 1);
            if e < s.len() {
                LexStep::Token(SymbolView::Comments(s.subrange(q + 1, e)), e + 2)
            } else {
                LexStep::Fault(LexFault::UnterminatedComment)
            }
        } else if c == '|' && char_at(s, q) != Some('|') && char_at(s, q) != Some(' ') {
            let e = find_char(s, q, '|');
            if q <= e < s.len() {
                match tokenize(s.subrange(q, e), 0) {
                    Ok(inner) => LexStep::Token(SymbolView::Closure(inner), e + 1),
                    Err(f) => LexStep::Fault(f),
                }
            } else {
                LexStep::Fault(LexFault::UnterminatedClosure)
            }
        } else {
            match operator_of(c, char_at(s, q), char_at(s, q + 1)) {
                Some((v, n)) => LexStep::Token(v, q + n),
                None => if is_decimal(word) && word.len() < usize::MAX / 32 {
                    LexStep::Token(SymbolView::Integer(decimal_value(word) as int), word_end(s, q))
                } else {
                    LexStep::Token(SymbolView::Label(word), word_end(s, q))
                },
            }
        }
    }
}

/// The symbols of `s` from `p` on.
pub open spec fn tokenize(s: Seq<char>, p: int) -> Result<Seq<SymbolView>, LexFault>
    decreases s.len(), s.len() - p, 1int,
{
    if p < 0 || p > s.len() {
        Ok(Seq::empty())
    } else {
        match lex_one(s, p) {
            LexStep::End => Ok(Seq::empty()),
            LexStep::Fault(f) => Err(f),
            LexStep::Token(t, q) => if p < q <= s.len() {
                match tokenize(s, q) {
                    Ok(rest) => Ok(seq![t] + rest),
                    Err(f) => Err(f),
                }
            } else {
                Ok(Seq::empty())
            },
        }
    }
}

pub proof fn lemma_string_end_bounds(s: Seq<char>, j: int)
    requires
        1 <= j <= s.len(),
    ensures
        j <= string_end(s, j) <= s.len(),
    decreases s.len() - j,
{
    if j < s.len() && !(s[j] == '"' && s[j - 1] != '\\') {
        lemma_string_end_bounds(s, j + 1);
    }
}

pub proof fn lemma_comment_end_bounds(s: Seq<char>, j: int)
    requires
        0 <= j <= s.len(),
    ensures
        j <= comment_end(s, j) <= s.len(),
        comment_end(s, j) < s.len() ==> comment_end(s, j) + 1 < s.len(),
    decreases s.len() - j,
{
    if j < s.len() && !(s[j] == '*' && j + 1 < s.len() && s[j + 1] == '/') {
        lemma_comment_end_bounds(s, j + 1);
    }
}

pub proof fn lemma_operator_width(c: char, second: Option<char>, third: Option<char>)
    ensures
        operator_of(c, second, third) matches Some((_, n)) ==> 0 <= n <= 2 && (n >= 1 ==> second
            is Some) && (n >= 2 ==> third is Some),
{
}

/// Each symbol read moves the cursor forward, and not past the end.
pub proof fn lemma_lex_one_advances(s: Seq<char>, p: int)
    requires
        0 <= p <= s.len(),
    ensures
        lex_one(s, p) matches LexStep::Token(_, q) ==> p < q <= s.len(),
{
    lemma_skip_white_bounds(s, p);
    let k = skip_white(s, p);
    if k < s.len() {
        let q = k + 1;
        lemma_word_end_bounds(s, q);
        lemma_string_end_bounds(s, q);
        lemma_find_char_bounds(s, q, '|');
        if q < s.len() {
            lemma_comment_end_bounds(s, q + 1);
            lemma_line_end_bounds(s, q + 1);
        }
    }
}

impl Symbol {
    /// Reads the body of a string literal whose opening `"` was just read.
    fn read_string_body(reader: &mut StringReader) -> (r: Result<String, LexFault>)
        requires
            old(reader).wf(),
            old(reader).pos() >= 1,
            old(reader).text()[old(reader).pos() - 1] == '"',
        ensures
            final(reader).wf(),
            final(reader).text() == old(reader).text(),
            ({
                let s = old(reader).text();
                let p = old(reader).pos();
                let e = string_end(s, p);
                if e < s.len() {
                    r is Ok && r->Ok_0@ == s.subrange(p, e) && final(reader).pos() == e + 1
                } else {
                    r == Err::<String, LexFault>(LexFault::UnterminatedString)
                }
            }),
    {
        let ghost s = reader.text();
        let ghost p = reader.pos();
        let mut out = String::new();
        let mut last: char = '"';
        assert(out@ == s.subrange(p, p));
        loop
            invariant
                reader.wf(),
                reader.text() == s,
                s == old(reader).text(),
                p == old(reader).pos(),
                1 <= p <= reader.pos() <= s.len(),
                out@ == s.subrange(p, reader.pos()),
                last == s[reader.pos() - 1],
                string_end(s, reader.pos()) == string_end(s, p),
            decreases s.len() - reader.pos(),
        {
            let ghost j = reader.pos();
            match reader.read_char() {
                None => {
                    return Err(LexFault::UnterminatedString);
                },
                Some(c) => {
                    if c == '"' && last != '\\' {
                        return Ok(out);
                    }
                    push_char(&mut out, c);
                    assert(s.subrange(p, j + 1) == s.subrange(p, j).push(c));
                    last = c;
                },
            }
        }
    }

    /// Reads the body of a `/*` comment whose opening was just read, and its closing `*/`.
    fn read_comment_body(reader: &mut StringReader) -> (r: Result<String, LexFault>)
        requires
            old(reader).wf(),
        ensures
            final(reader).wf(),
            final(reader).text() == old(reader).text(),
            ({
                let s = old(reader).text();
                let p = old(reader).pos();
                let e = comment_end(s, p);
                if e < s.len() {
                    r is Ok && r->Ok_0@ == s.subrange(p, e) && final(reader).pos() == e + 2
                } else {
                    r == Err::<String, LexFault>(LexFault::UnterminatedComment)
                }
            }),
    {
        let ghost s = reader.text();
        let ghost p = reader.pos();
        let mut out = String::new();
        assert(out@ == s.subrange(p, p));
        loop
            invariant
                reader.wf(),
                reader.text() == s,
                s == old(reader).text(),
                p == old(reader).pos(),
                0 <= p <= reader.pos() <= s.len(),
                out@ == s.subrange(p, reader.pos()),
                comment_end(s, reader.pos()) == comment_end(s, p),
            decreases s.len() - reader.pos(),
        {
            let ghost j = reader.pos();
            match reader.read_char() {
                None => {
                    return Err(LexFault::UnterminatedComment);
                },
                Some(c) => {
                    if c == '*' && reader.peek_char() == Some('/') {
                        reader.read_char();
                        return Ok(out);
                    }
                    push_char(&mut out, c);
                    assert(s.subrange(p, j + 1) == s.subrange(p, j).push(c));
                },
            }
        }
    }

    /// Reads the next symbol: `Ok(None)` when only white space is left.
    pub fn next(reader: &mut StringReader) -> (r: Result<Option<Symbol>, LexFault>)
        requires
            old(reader).wf(),
        ensures
            final(reader).wf(),
            final(reader).text() == old(reader).text(),
            match lex_one(old(reader).text(), old(reader).pos()) {
                LexStep::End => r == Ok::<Option<Symbol>, LexFault>(None),
                LexStep::Fault(f) => r == Err::<Option<Symbol>, LexFault>(f),
                LexStep::Token(v, q) => r is Ok && r->Ok_0 is Some && symbol_view(r->Ok_0->0) == v
                    && final(reader).pos() == q,
            },
        decreases old(reader).text().len(), 0int,
    {
        let ghost s = reader.text();
        let ghost p = reader.pos();
        proof {
            lemma_skip_white_bounds(s, p);
        }
        let first_char = match reader.next_non_whitespace_char() {
            Some(c) => c,
            None => {
                return Ok(None);
            },
        };
        let ghost k = skip_white(s, p);
        let ghost q = k + 1;
        proof {
            lemma_word_end_bounds(s, q);
        }
        let second_char = reader.peek_char();
        let third_char = reader.peek_next_char();
        let peeked = reader.peek_word();
        let mut word_chars: Vec<char> = vec![first_char];
        let mut rest = chars_of(peeked.as_str());
        word_chars.append(&mut rest);
        assert(word_chars@ == word_at(s, k));
        match keyword_for(&word_chars) {
            Some(kw) => {
                reader.read_word();
                return Ok(Some(Symbol::Keyword(kw)));
            },
            None => {},
        }
        if first_char == '"' {
            return match Self::read_string_body(reader) {
                Ok(body) => Ok(Some(Symbol::String(body))),
                Err(f) => Err(f),
            };
        }
        if first_char == '/' && second_char == Some('/') {
            reader.read_char();
            let line = reader.read_line();
            return Ok(Some(Symbol::Comment(line)));
        }
        if first_char == '/' && second_char == Some('*') {
            reader.read_char();
            return match Self::read_comment_body(reader) {
                Ok(body) => Ok(Some(Symbol::Comments(body))),
                Err(f) => Err(f),
            };
        }
        if first_char == '|' && second_char != Some('|') && second_char != Some(' ') {
            proof {
                lemma_find_char_bounds(s, q, '|');
            }
            return match reader.read_until('|') {
                Some(inner) => {
                    let ghost e = find_char(s, q, '|');
                    assert(lex_one(s, p) == match tokenize(inner@, 0) {
                        Ok(t) => LexStep::Token(SymbolView::Closure(t), e + 1),
                        Err(f) => LexStep::Fault(f),
                    });
                    let mut inner_reader = StringReader::from_string(inner);
                    match Self::read_all_symbols(&mut inner_reader) {
                        Ok(group) => {
                            let ghost gv = group@;
                            let sym = Symbol::Closure(group);
                            proof {
                                let t = match symbol_view(sym) {
                                    SymbolView::Closure(t) => t,
                                    _ => Seq::empty(),
                                };
                                assert(t =~= symbols_view(gv));
                            }
                            Ok(Some(sym))
                        },
                        Err(f) => Err(f),
                    }
                },
                None => Err(LexFault::UnterminatedClosure),
            };
        }
        proof {
            lemma_operator_width(first_char, second_char, third_char);
        }
        match operator_symbol(first_char, second_char, third_char) {
            Some((sym, n)) => {
                if n >= 1 {
                    reader.read_char();
                }
                if n >= 2 {
                    reader.read_char();
                }
                return Ok(Some(sym));
            },
            None => {},
        }
        reader.read_word();
        let mut label = String::new();
        push_char(&mut label, first_char);
        label.append(peeked.as_str());
        assert(label@ == word_at(s, k));
        assert(lex_one(s, p) == if is_decimal(label@) && label@.len() < usize::MAX / 32 {
            LexStep::Token(SymbolView::Integer(decimal_value(label@) as int), word_end(s, q))
        } else {
            LexStep::Token(SymbolView::Label(label@), word_end(s, q))
        });
        match Bigint::from_str(label.as_str()) {
            Some(number) => Ok(Some(Symbol::Integer(number))),
            None => Ok(Some(Symbol::Label(label))),
        }
    }

    /// Reads every symbol up to the end of the text.
    pub fn read_all_symbols(reader: &mut StringReader) -> (r: Result<Vec<Symbol>, LexFault>)
        requires
            old(reader).wf(),
        ensures
            final(reader).wf(),
            final(reader).text() == old(reader).text(),
            match tokenize(old(reader).text(), old(reader).pos()) {
                Ok(t) => r is Ok && symbols_view(r->Ok_0@) == t,
                Err(f) => r == Err::<Vec<Symbol>, LexFault>(f),
            },
        decreases old(reader).text().len(), 1int,
    {
        let ghost s = reader.text();
        let ghost p = reader.pos();
        let mut symbols: Vec<Symbol> = Vec::new();
        loop
            invariant
                reader.wf(),
                reader.text() == s,
                s == old(reader).text(),
                p == old(reader).pos(),
                p <= reader.pos() <= s.len(),
                tokenize(s, p) == match tokenize(s, reader.pos()) {
                    Ok(t) => Ok(symbols_view(symbols@) + t),
                    Err(f) => Err(f),
                },
            decreases s.len() - reader.pos(),
        {
            let ghost j = reader.pos();
            proof {
                lemma_lex_one_advances(s, j);
            }
            match Self::next(reader) {
                Ok(Some(sym)) => {
                    let ghost v = symbol_view(sym);
                    let ghost before = symbols@;
                    symbols.push(sym);
                    proof {
                        assert(symbols_view(symbols@) =~= symbols_view(before).push(v));
                        assert(tokenize(s, j) == match tokenize(s, reader.pos()) {
                            Ok(rest) => Ok(seq![v] + rest),
                            Err(f) => Err(f),
                        });
                        match tokenize(s, reader.pos()) {
                            Ok(t) => {
                                assert(symbols_view(symbols@) + t =~= symbols_view(before) + (seq![v] + t));
                            },
                            Err(f) => {},
                        }
                    }
                },
                Ok(None) => {
                    assert(symbols_view(symbols@) + Seq::<SymbolView>::empty() == symbols_view(symbols@));
                    return Ok(symbols);
                },
                Err(f) => {
                    return Err(f);
                },
            }
        }
    }
}

/// Notes on the source text that symbols came from (line numbers and the like).
#[derive(Debug)]
pub struct Annotation {}

/// The symbols of one source text.
#[derive(Debug)]
pub struct SyntaxRoot {
    pub symbols: Vec<Symbol>,
    pub annotations: Vec<Annotation>,
}

impl SyntaxRoot {
    /// Splits `from` into symbols.
    pub fn from_string(from: String) -> (r: Result<SyntaxRoot, LexFault>)
        ensures
            match tokenize(from@, 0) {
                Ok(t) => r is Ok && symbols_view(r->Ok_0.symbols@) == t && r->Ok_0.annotations@.len()
                    == 0,
                Err(f) => r == Err::<SyntaxRoot, LexFault>(f),
            },
    {
        let mut reader = StringReader::from_string(from);
        match Symbol::read_all_symbols(&mut reader) {
            Ok(symbols) => Ok(SyntaxRoot { symbols, annotations: Vec::new() }),
            Err(f) => Err(f),
        }
    }
}

/// Keywords are read only as whole words: where the word at the next symbol (up to white
/// space or a reserved character) spells a keyword, that keyword is read and the whole word is
/// consumed; where it does not, no keyword is read, whatever keyword the word starts with.
pub proof fn lemma_maximal_munch(s: Seq<char>, p: int)
    requires
        0 <= p <= s.len(),
        skip_white(s, p) < s.len(),
    ensures
        keyword_of(word_at(s, skip_white(s, p))) is Some ==> lex_one(s, p) == LexStep::Token(
            SymbolView::Keyword(keyword_of(word_at(s, skip_white(s, p)))->0),
            word_end(s, skip_white(s, p) + 1),
        ),
        keyword_of(word_at(s, skip_white(s, p))) is None ==> !(lex_one(s, p) matches LexStep::Token(
            SymbolView::Keyword(_),
            _,
        )),
{
    lemma_skip_white_bounds(s, p);
    let k = skip_white(s, p);
    let q = k + 1;
    match operator_of(s[k], char_at(s, q), char_at(s, q + 1)) {
        Some((v, n)) => {
            assert(!(v is Keyword));
        },
        None => {},
    }
}

} // verus!
