//! The lexer: source text to a sequence of spanned tokens.
use vstd::prelude::*;
use crate::Span;
use crate::error::Error;
use crate::operator::Operator;
use crate::strings::{Interner, Symbol};
use vstd::string::StringSliceAdditionalSpecFns;

verus! {

/// The kind of a token; identifiers and literals carry their value.
#[derive(Debug, Clone, Copy, PartialEq, Eq, Hash, Structural)]
pub enum TokenKind {
    Identifier(Symbol),
    Integer(u64),
    Boolean(bool),
    /// The type keywords `Unit`, `Int`, `UInt` and `Bool`.
    UnitType,
    IntType,
    UIntType,
    BoolType,
    /// `{` and `}`, around a parameter list.
    ParameterOpen,
    ParameterClose,
    /// `(` and `)`.
    GroupOpen,
    GroupClose,
    /// `[` and `]`.
    ArrayOpen,
    ArrayClose,
    /// `:`, between a name and its type.
    Colon,
    /// `,`, between list items.
    Separator,
    /// An operator symbol or keyword.
    Op(Operator),
}

/// A token and the span of source text it was read from.
#[derive(Debug, Clone, Copy, PartialEq, Eq, Hash, Structural)]
pub struct Token {
    pub kind: TokenKind,
    pub span: Span,
}

impl Token {
    pub fn kind(&self) -> (r: &TokenKind)
        ensures
            *r == self.kind,
    {
        &self.kind
    }

    pub fn span(&self) -> (r: &Span)
        ensures
            *r == self.span,
    {
        &self.span
    }
}


/// Spaces, tabs, line feeds and carriage returns separate tokens.
pub open spec fn is_ws(c: u8) -> bool {
    c == 32u8 || c == 9u8 || c == 10u8 || c == 13u8
}

pub open spec fn is_digit(c: u8) -> bool {
    48u8 <= c <= 57u8
}

pub open spec fn is_ident_start(c: u8) -> bool {
    (97u8 <= c <= 122u8) || (65u8 <= c <= 90u8) || c == 95u8
}

pub open spec fn is_ident_char(c: u8) -> bool {
    is_ident_start(c) || is_digit(c)
}

/// Byte `p` of `b` is discarded between tokens: it is whitespace, or part of
/// a comment that runs from a `#` at or after `lo` to the end of its line.
pub open spec fn trivia_at(b: Seq<u8>, lo: int, p: int) -> bool {
    ||| is_ws(b[p])
    ||| exists|q: int|
        lo <= q <= p && b[q] == 35u8 && forall|r: int| q <= r <= p ==> #[trigger] b[r] != 10u8
}

/// The fixed spelling of a token kind; empty for identifiers, integers and
/// the reserved operators, which have none.
pub open spec fn spelling(k: TokenKind) -> Seq<u8> {
    match k {
        TokenKind::Boolean(true) => seq![116u8, 114u8, 117u8, 101u8],
        TokenKind::Boolean(false) => seq![102u8, 97u8, 108u8, 115u8, 101u8],
        TokenKind::UnitType => seq![85u8, 110u8, 105u8, 116u8],
        TokenKind::IntType => seq![73u8, 110u8, 116u8],
        TokenKind::UIntType => seq![85u8, 73u8, 110u8, 116u8],
        TokenKind::BoolType => seq![66u8, 111u8, 111u8, 108u8],
        TokenKind::ParameterOpen => seq![123u8],
        TokenKind::ParameterClose => seq![125u8],
        TokenKind::GroupOpen => seq![40u8],
        TokenKind::GroupClose => seq![41u8],
        TokenKind::ArrayOpen => seq![91u8],
        TokenKind::ArrayClose => seq![93u8],
        TokenKind::Colon => seq![58u8],
        TokenKind::Separator => seq![44u8],
        TokenKind::Op(op) => match op {
            Operator::Exp => seq![42u8, 42u8],
            Operator::Add => seq![43u8],
            Operator::Sub => seq![45u8],
            Operator::Mul => seq![42u8],
            Operator::Div => seq![47u8],
            Operator::Rem => seq![37u8],
            Operator::Shr => seq![62u8, 62u8],
            Operator::Shl => seq![60u8, 60u8],
            Operator::BitXor => seq![94u8],
            Operator::BitAnd => seq![38u8],
            Operator::BitOr => seq![124u8],
            Operator::Eq => seq![61u8, 61u8],
            Operator::NotEq => seq![33u8, 61u8],
            Operator::Greater => seq![62u8],
            Operator::GreaterEq => seq![62u8, 61u8],
            Operator::Less => seq![60u8],
            Operator::LessEq => seq![60u8, 61u8],
            Operator::Or => seq![111u8, 114u8],
            Operator::Xor => seq![120u8, 111u8, 114u8],
            Operator::And => seq![97u8, 110u8, 100u8],
            Operator::Assign => seq![61u8],
            _ => Seq::empty(),
        },
        _ => Seq::empty(),
    }
}

/// The words that are keywords rather than identifiers.
pub open spec fn is_keyword(s: Seq<u8>) -> bool {
    ||| s == spelling(TokenKind::Boolean(true))
    ||| s == spelling(TokenKind::Boolean(false))
    ||| s == spelling(TokenKind::UnitType)
    ||| s == spelling(TokenKind::IntType)
    ||| s == spelling(TokenKind::UIntType)
    ||| s == spelling(TokenKind::BoolType)
    ||| s == spelling(TokenKind::Op(Operator::Or))
    ||| s == spelling(TokenKind::Op(Operator::Xor))
    ||| s == spelling(TokenKind::Op(Operator::And))
}

/// The characters of ASCII text.
pub open spec fn ascii_chars(s: Seq<u8>) -> Seq<char> {
    s.map_values(|c: u8| c as char)
}

/// The value of a string of decimal digits.
pub open spec fn decimal(s: Seq<u8>) -> nat
    decreases s.len(),
{
    if s.len() == 0 {
        0
    } else {
        decimal(s.drop_last()) * 10 + (s.last() - 48u8) as nat
    }
}

/// The token `t` is what the text it spans in `b` says, with identifiers
/// named in the interner table `names`; each token is the longest one that
/// starts where it does (a word or a number runs to its last character, and
/// `>=` is one token, not two).
pub open spec fn token_reads(b: Seq<u8>, names: Seq<Seq<char>>, t: Token) -> bool {
    let text = b.subrange(t.span.start as int, t.span.end as int);
    let end = t.span.end as int;
    &&& t.span.start < t.span.end <= b.len()
    &&& match t.kind {
        TokenKind::Identifier(s) => {
            &&& is_ident_start(text[0])
            &&& forall|k: int| 0 <= k < text.len() ==> is_ident_char(#[trigger] text[k])
            &&& (end == b.len() || !is_ident_char(b[end]))
            &&& !is_keyword(text)
            &&& (s.id as int) < names.len()
            &&& names[s.id as int] == ascii_chars(text)
        },
        TokenKind::Integer(v) => {
            &&& forall|k: int| 0 <= k < text.len() ==> is_digit(#[trigger] text[k])
            &&& (end == b.len() || !is_digit(b[end]))
            &&& v as nat == decimal(text)
        },
        k => {
            &&& text == spelling(k)
            &&& if is_ident_start(text[0]) {
                end == b.len() || !is_ident_char(b[end])
            } else {
                forall|k2: TokenKind|
                    spelled_at(b, t.span.start as int, k2) ==> spelling(k2).len() <= text.len()
            }
        },
    }
}

/// A successful lexing of `b`: tokens in order, each reading as its text
/// says, and every byte outside them whitespace or comment.
pub open spec fn lexed(b: Seq<u8>, names: Seq<Seq<char>>, toks: Seq<Token>) -> bool {
    &&& forall|k: int| 0 <= k < toks.len() ==> token_reads(b, names, #[trigger] toks[k])
    &&& forall|k: int, l: int|
        0 <= k < l < toks.len() ==> (#[trigger] toks[k]).span.end <= (#[trigger] toks[l]).span.start
    &&& forall|p: int|
        0 <= p < b.len() && !covered(toks, p) ==> trivia_at(b, gap_start(toks, p), p)
    &&& forall|k: int|
        0 <= k < toks.len() ==> !open_comment(
            b,
            gap_start(toks, (#[trigger] toks[k]).span.start as int),
            toks[k].span.start as int,
        )
}

/// A comment opened at or after `lo` is still running at byte `p`: a `#`
/// stands before `p` with no line feed between it and `p`.
pub open spec fn open_comment(b: Seq<u8>, lo: int, p: int) -> bool {
    exists|q: int|
        lo <= q < p && b[q] == 35u8 && forall|r: int| q <= r < p ==> #[trigger] b[r] != 10u8
}

/// Byte `p` lies inside the span of one of the tokens.
pub open spec fn covered(toks: Seq<Token>, p: int) -> bool {
    exists|k: int| 0 <= k < toks.len() && (#[trigger] toks[k]).span.start <= p < toks[k].span.end
}

/// Where the gap between tokens that holds byte `p` begins: the end of the
/// last token before `p`, or the start of the buffer.
pub open spec fn gap_start(toks: Seq<Token>, p: int) -> int
    decreases toks.len(),
{
    if toks.len() == 0 {
        0
    } else if toks.last().span.end <= p {
        toks.last().span.end as int
    } else {
        gap_start(toks.drop_last(), p)
    }
}


/// Relies on `String::from_utf8_lossy`: ASCII bytes are valid UTF-8, and
/// each stands for the character of the same code.
#[verifier::external_body]
fn ascii_string(bytes: &[u8]) -> (r: String)
    requires
        forall|k: int| 0 <= k < bytes@.len() ==> bytes@[k] < 128,
    ensures
        r@ == ascii_chars(bytes@),
{
    String::from_utf8_lossy(bytes).into_owned()
}

/// The fixed spelling of a token kind, as bytes.
fn spelling_of(k: &TokenKind) -> (r: Vec<u8>)
    ensures
        r@ == spelling(*k),
{
    let v: Vec<u8> = match k {
        TokenKind::Boolean(true) => vec![116u8, 114u8, 117u8, 101u8],
        TokenKind::Boolean(false) => vec![102u8, 97u8, 108u8, 115u8, 101u8],
        TokenKind::UnitType => vec![85u8, 110u8, 105u8, 116u8],
        TokenKind::IntType => vec![73u8, 110u8, 116u8],
        TokenKind::UIntType => vec![85u8, 73u8, 110u8, 116u8],
        TokenKind::BoolType => vec![66u8, 111u8, 111u8, 108u8],
        TokenKind::ParameterOpen => vec![123u8],
        TokenKind::ParameterClose => vec![125u8],
        TokenKind::GroupOpen => vec![40u8],
        TokenKind::GroupClose => vec![41u8],
        TokenKind::ArrayOpen => vec![91u8],
        TokenKind::ArrayClose => vec![93u8],
        TokenKind::Colon => vec![58u8],
        TokenKind::Separator => vec![44u8],
        TokenKind::Op(op) => match op {
            Operator::Exp => vec![42u8, 42u8],
            Operator::Add => vec![43u8],
            Operator::Sub => vec![45u8],
            Operator::Mul => vec![42u8],
            Operator::Div => vec![47u8],
            Operator::Rem => vec![37u8],
            Operator::Shr => vec![62u8, 62u8],
            Operator::Shl => vec![60u8, 60u8],
            Operator::BitXor => vec![94u8],
            Operator::BitAnd => vec![38u8],
            Operator::BitOr => vec![124u8],
            Operator::Eq => vec![61u8, 61u8],
            Operator::NotEq => vec![33u8, 61u8],
            Operator::Greater => vec![62u8],
            Operator::GreaterEq => vec![62u8, 61u8],
            Operator::Less => vec![60u8],
            Operator::LessEq => vec![60u8, 61u8],
            Operator::Or => vec![111u8, 114u8],
            Operator::Xor => vec![120u8, 111u8, 114u8],
            Operator::And => vec![97u8, 110u8, 100u8],
            Operator::Assign => vec![61u8],
            _ => Vec::new(),
        },
        _ => Vec::new(),
    };
    assert(v@ =~= spelling(*k));
    v
}

/// Whether the bytes `b[start..end]` are exactly `word`.
fn text_is(b: &[u8], start: usize, end: usize, word: &Vec<u8>) -> (r: bool)
    requires
        start <= end <= b@.len(),
    ensures
        r == (b@.subrange(start as int, end as int) == word@),
{
    if end - start != word.len() {
        return false;
    }
    let mut k: usize = 0;
    while k < word.len()
        invariant
            start <= end <= b@.len(),
            end - start == word@.len(),
            0 <= k <= word@.len(),
            forall|m: int| 0 <= m < k ==> b@[start + m] == word@[m],
        decreases word@.len() - k,
    {
        if b[start + k] != word[k] {
            assert(b@.subrange(start as int, end as int)[k as int] != word@[k as int]);
            return false;
        }
        k = k + 1;
    }
    assert(b@.subrange(start as int, end as int) =~= word@);
    true
}

/// The keyword spelled by `b[start..end]`, if it spells one.
fn keyword(b: &[u8], start: usize, end: usize) -> (r: Option<TokenKind>)
    requires
        start <= end <= b@.len(),
    ensures
        r matches Some(k) ==> spelling(k) == b@.subrange(start as int, end as int)
            && !(k is Identifier) && !(k is Integer),
        r is None ==> !is_keyword(b@.subrange(start as int, end as int)),
{
    let words: Vec<TokenKind> = vec![
        TokenKind::Boolean(true),
        TokenKind::Boolean(false),
        TokenKind::UnitType,
        TokenKind::IntType,
        TokenKind::UIntType,
        TokenKind::BoolType,
        TokenKind::Op(Operator::Or),
        TokenKind::Op(Operator::Xor),
        TokenKind::Op(Operator::And),
    ];
    let ghost text = b@.subrange(start as int, end as int);
    let mut k: usize = 0;
    while k < words.len()
        invariant
            start <= end <= b@.len(),
            text == b@.subrange(start as int, end as int),
            0 <= k <= words@.len(),
            words@.len() == 9,
            words@ == seq![
                TokenKind::Boolean(true),
                TokenKind::Boolean(false),
                TokenKind::UnitType,
                TokenKind::IntType,
                TokenKind::UIntType,
                TokenKind::BoolType,
                TokenKind::Op(Operator::Or),
                TokenKind::Op(Operator::Xor),
                TokenKind::Op(Operator::And),
            ],
            forall|m: int| 0 <= m < k ==> spelling(#[trigger] words@[m]) != text,
        decreases words@.len() - k,
    {
        let w = spelling_of(&words[k]);
        if text_is(b, start, end, &w) {
            return Some(words[k]);
        }
        k = k + 1;
    }
    assert(spelling(words@[0]) != text);
    assert(spelling(words@[1]) != text);
    assert(spelling(words@[2]) != text);
    assert(spelling(words@[3]) != text);
    assert(spelling(words@[4]) != text);
    assert(spelling(words@[5]) != text);
    assert(spelling(words@[6]) != text);
    assert(spelling(words@[7]) != text);
    assert(spelling(words@[8]) != text);
    None
}

/// Some token of fixed spelling `k` is spelled at `b[p..]`.
pub open spec fn spelled_at(b: Seq<u8>, p: int, k: TokenKind) -> bool {
    &&& spelling(k).len() > 0
    &&& p + spelling(k).len() <= b.len()
    &&& b.subrange(p, p + spelling(k).len()) == spelling(k)
}

/// No token starts at byte `p`, and the byte is neither whitespace nor the
/// start of a comment.
pub open spec fn unrecognized(b: Seq<u8>, p: int) -> bool {
    &&& !is_ws(b[p])
    &&& b[p] != 35u8
    &&& !is_ident_start(b[p])
    &&& !is_digit(b[p])
    &&& forall|k: TokenKind| !spelled_at(b, p, k)
}

/// The punctuation and operator tokens, two-byte spellings first.
pub open spec fn symbol_list() -> Seq<TokenKind> {
    seq![
        TokenKind::Op(Operator::Exp),
        TokenKind::Op(Operator::Shr),
        TokenKind::Op(Operator::Shl),
        TokenKind::Op(Operator::Eq),
        TokenKind::Op(Operator::NotEq),
        TokenKind::Op(Operator::GreaterEq),
        TokenKind::Op(Operator::LessEq),
        TokenKind::ParameterOpen,
        TokenKind::ParameterClose,
        TokenKind::GroupOpen,
        TokenKind::GroupClose,
        TokenKind::ArrayOpen,
        TokenKind::ArrayClose,
        TokenKind::Colon,
        TokenKind::Separator,
        TokenKind::Op(Operator::Add),
        TokenKind::Op(Operator::Sub),
        TokenKind::Op(Operator::Mul),
        TokenKind::Op(Operator::Div),
        TokenKind::Op(Operator::Rem),
        TokenKind::Op(Operator::BitXor),
        TokenKind::Op(Operator::BitAnd),
        TokenKind::Op(Operator::BitOr),
        TokenKind::Op(Operator::Greater),
        TokenKind::Op(Operator::Less),
        TokenKind::Op(Operator::Assign),
    ]
}

proof fn lemma_symbol_list_shape()
    ensures
        symbol_list().len() == 26,
        forall|m: int|
            0 <= m < 26 ==> {
                &&& spelling(#[trigger] symbol_list()[m]).len() == (if m < 7 {
                    2int
                } else {
                    1int
                })
                &&& !is_ident_start(spelling(symbol_list()[m])[0])
                &&& !(symbol_list()[m] is Identifier)
                &&& !(symbol_list()[m] is Integer)
            },
{
    assert forall|m: int| 0 <= m < 26 implies {
        &&& spelling(#[trigger] symbol_list()[m]).len() == (if m < 7 {
            2int
        } else {
            1int
        })
        &&& !is_ident_start(spelling(symbol_list()[m])[0])
        &&& !(symbol_list()[m] is Identifier)
        &&& !(symbol_list()[m] is Integer)
    } by {
        let l = symbol_list();
        assert(l[0] == TokenKind::Op(Operator::Exp));
        if m < 13 {
            if m < 7 {
                assert(spelling(l[m]).len() == 2);
            } else {
                assert(spelling(l[m]).len() == 1);
            }
        } else {
            assert(spelling(l[m]).len() == 1);
        }
    }
}

/// Every token spelled at a byte that cannot start an identifier is one of
/// the punctuation and operator tokens.
proof fn lemma_symbol_listed(b: Seq<u8>, p: int, k: TokenKind) -> (m: int)
    requires
        0 <= p < b.len(),
        !is_ident_start(b[p]),
        spelled_at(b, p, k),
    ensures
        0 <= m < 26,
        symbol_list()[m] == k,
{
    assert(b.subrange(p, p + spelling(k).len())[0] == b[p]);
    match k {
        TokenKind::Op(Operator::Exp) => assert(symbol_list()[0] == k),
        TokenKind::Op(Operator::Shr) => assert(symbol_list()[1] == k),
        TokenKind::Op(Operator::Shl) => assert(symbol_list()[2] == k),
        TokenKind::Op(Operator::Eq) => assert(symbol_list()[3] == k),
        TokenKind::Op(Operator::NotEq) => assert(symbol_list()[4] == k),
        TokenKind::Op(Operator::GreaterEq) => assert(symbol_list()[5] == k),
        TokenKind::Op(Operator::LessEq) => assert(symbol_list()[6] == k),
        TokenKind::ParameterOpen => assert(symbol_list()[7] == k),
        TokenKind::ParameterClose => assert(symbol_list()[8] == k),
        TokenKind::GroupOpen => assert(symbol_list()[9] == k),
        TokenKind::GroupClose => assert(symbol_list()[10] == k),
        TokenKind::ArrayOpen => assert(symbol_list()[11] == k),
        TokenKind::ArrayClose => assert(symbol_list()[12] == k),
        TokenKind::Colon => assert(symbol_list()[13] == k),
        TokenKind::Separator => assert(symbol_list()[14] == k),
        TokenKind::Op(Operator::Add) => assert(symbol_list()[15] == k),
        TokenKind::Op(Operator::Sub) => assert(symbol_list()[16] == k),
        TokenKind::Op(Operator::Mul) => assert(symbol_list()[17] == k),
        TokenKind::Op(Operator::Div) => assert(symbol_list()[18] == k),
        TokenKind::Op(Operator::Rem) => assert(symbol_list()[19] == k),
        TokenKind::Op(Operator::BitXor) => assert(symbol_list()[20] == k),
        TokenKind::Op(Operator::BitAnd) => assert(symbol_list()[21] == k),
        TokenKind::Op(Operator::BitOr) => assert(symbol_list()[22] == k),
        TokenKind::Op(Operator::Greater) => assert(symbol_list()[23] == k),
        TokenKind::Op(Operator::Less) => assert(symbol_list()[24] == k),
        TokenKind::Op(Operator::Assign) => assert(symbol_list()[25] == k),
        _ => {},
    }
    choose|m: int| 0 <= m < 26 && symbol_list()[m] == k
}

/// The punctuation or operator token at `b[start..]`, longest spelling
/// first, and where it ends.
fn symbol(b: &[u8], start: usize) -> (r: Option<(TokenKind, usize)>)
    requires
        start < b@.len(),
    ensures
        r matches Some((k, end)) ==> start < end <= b@.len() && spelling(k) == b@.subrange(
            start as int,
            end as int,
        ) && !(k is Identifier) && !(k is Integer) && !is_ident_start(spelling(k)[0]) && forall|
            k2: TokenKind,
        |
            !is_ident_start(b@[start as int]) && spelled_at(b@, start as int, k2) ==> spelling(
                k2,
            ).len() <= end - start,
        r is None ==> forall|k: TokenKind|
            !is_ident_start(b@[start as int]) ==> !spelled_at(b@, start as int, k),
{
    let symbols: Vec<TokenKind> = vec![
        TokenKind::Op(Operator::Exp),
        TokenKind::Op(Operator::Shr),
        TokenKind::Op(Operator::Shl),
        TokenKind::Op(Operator::Eq),
        TokenKind::Op(Operator::NotEq),
        TokenKind::Op(Operator::GreaterEq),
        TokenKind::Op(Operator::LessEq),
        TokenKind::ParameterOpen,
        TokenKind::ParameterClose,
        TokenKind::GroupOpen,
        TokenKind::GroupClose,
        TokenKind::ArrayOpen,
        TokenKind::ArrayClose,
        TokenKind::Colon,
        TokenKind::Separator,
        TokenKind::Op(Operator::Add),
        TokenKind::Op(Operator::Sub),
        TokenKind::Op(Operator::Mul),
        TokenKind::Op(Operator::Div),
        TokenKind::Op(Operator::Rem),
        TokenKind::Op(Operator::BitXor),
        TokenKind::Op(Operator::BitAnd),
        TokenKind::Op(Operator::BitOr),
        TokenKind::Op(Operator::Greater),
        TokenKind::Op(Operator::Less),
        TokenKind::Op(Operator::Assign),
    ];
    let mut i: usize = 0;
    while i < symbols.len()
        invariant
            start < b@.len(),
            0 <= i <= symbols@.len(),
            symbols@ == symbol_list(),
            forall|m: int| 0 <= m < i ==> !spelled_at(b@, start as int, #[trigger] symbols@[m]),
        decreases symbols@.len() - i,
    {
        let w = spelling_of(&symbols[i]);
        if w.len() > 0 && w.len() <= b.len() - start && text_is(b, start, start + w.len(), &w) {
            proof {
                lemma_symbol_list_shape();
                assert forall|k2: TokenKind|
                    !is_ident_start(b@[start as int]) && spelled_at(
                        b@,
                        start as int,
                        k2,
                    ) implies spelling(k2).len() <= w@.len() by {
                    let m = lemma_symbol_listed(b@, start as int, k2);
                    assert(spelling(symbol_list()[m]).len() == (if m < 7 {
                        2int
                    } else {
                        1int
                    }));
                    assert(spelling(symbols@[i as int]).len() == (if i < 7 {
                        2int
                    } else {
                        1int
                    }));
                    if m >= i {
                        assert(spelling(k2).len() <= w@.len());
                    }
                }
            }
            return Some((symbols[i], start + w.len()));
        }
        i = i + 1;
    }
    assert forall|k: TokenKind| !is_ident_start(b@[start as int]) implies !spelled_at(
        b@,
        start as int,
        k,
    ) by {
        if spelled_at(b@, start as int, k) {
            let m = lemma_symbol_listed(b@, start as int, k);
            assert(!spelled_at(b@, start as int, symbols@[m]));
        }
    }
    None
}

/// The end of the run of bytes that satisfy `is_ident_char` (or `is_digit`,
/// when `digits` is set) from `start` on.
fn run_end(b: &[u8], start: usize, digits: bool) -> (r: usize)
    requires
        start <= b@.len(),
    ensures
        start <= r <= b@.len(),
        forall|k: int|
            start <= k < r ==> if digits {
                is_digit(#[trigger] b@[k])
            } else {
                is_ident_char(b@[k])
            },
        r < b@.len() ==> !(if digits {
            is_digit(b@[r as int])
        } else {
            is_ident_char(b@[r as int])
        }),
{
    let mut i = start;
    while i < b.len() && in_run(b[i], digits)
        invariant
            start <= i <= b@.len(),
            forall|k: int|
                start <= k < i ==> if digits {
                    is_digit(#[trigger] b@[k])
                } else {
                    is_ident_char(b@[k])
                },
        decreases b@.len() - i,
    {
        i = i + 1;
    }
    i
}

fn in_run(c: u8, digits: bool) -> (r: bool)
    ensures
        r == if digits {
            is_digit(c)
        } else {
            is_ident_char(c)
        },
{
    if digits {
        48u8 <= c && c <= 57u8
    } else {
        (97u8 <= c && c <= 122u8) || (65u8 <= c && c <= 90u8) || c == 95u8 || (48u8 <= c && c
            <= 57u8)
    }
}


proof fn lemma_decimal_prefix(s: Seq<u8>, m: int)
    requires
        0 <= m <= s.len(),
    ensures
        decimal(s.subrange(0, m)) <= decimal(s),
    decreases s.len(),
{
    if m < s.len() {
        lemma_decimal_prefix(s.drop_last(), m);
        assert(s.drop_last().subrange(0, m) =~= s.subrange(0, m));
    } else {
        assert(s.subrange(0, m) =~= s);
    }
}

/// The value of the digits `b[start..end]`, or `None` where it does not fit
/// in a `u64`.
fn decimal_value(b: &[u8], start: usize, end: usize) -> (r: Option<u64>)
    requires
        start <= end <= b@.len(),
        forall|k: int| start <= k < end ==> is_digit(#[trigger] b@[k]),
    ensures
        r matches Some(v) ==> v as nat == decimal(b@.subrange(start as int, end as int)),
        r is None ==> decimal(b@.subrange(start as int, end as int)) > u64::MAX,
{
    let mut v: u64 = 0;
    let mut k: usize = start;
    assert(b@.subrange(start as int, start as int) =~= Seq::<u8>::empty());
    while k < end
        invariant
            start <= k <= end <= b@.len(),
            forall|m: int| start <= m < end ==> is_digit(#[trigger] b@[m]),
            v as nat == decimal(b@.subrange(start as int, k as int)),
        decreases end - k,
    {
        let ghost prefix = b@.subrange(start as int, k as int + 1);
        assert(prefix.drop_last() =~= b@.subrange(start as int, k as int));
        assert(is_digit(b@[k as int]));
        let d = (b[k] - 48u8) as u64;
        let next = match v.checked_mul(10) {
            Some(t) => t.checked_add(d),
            None => None,
        };
        match next {
            Some(t) => {
                v = t;
            },
            None => {
                proof {
                    let whole = b@.subrange(start as int, end as int);
                    assert(whole.subrange(0, k - start + 1) =~= prefix);
                    lemma_decimal_prefix(whole, k - start + 1);
                }
                return None;
            },
        }
        k = k + 1;
    }
    Some(v)
}

/// Byte `p` lies within the span of one of the first tokens, or is trivia.
pub open spec fn accounted(b: Seq<u8>, toks: Seq<Token>, p: int) -> bool {
    covered(toks, p) || trivia_at(b, gap_start(toks, p), p)
}

proof fn lemma_gap_start_after(toks: Seq<Token>, p: int, q: int)
    requires
        forall|k: int| 0 <= k < toks.len() ==> (#[trigger] toks[k]).span.end <= q,
        0 <= q <= p,
    ensures
        gap_start(toks, p) <= q,
{
    if toks.len() > 0 {
        assert(toks[toks.len() - 1].span.end <= q);
    }
}

proof fn lemma_gap_start_stable(toks: Seq<Token>, q: int, p: int)
    requires
        forall|k: int| 0 <= k < toks.len() ==> (#[trigger] toks[k]).span.end <= q,
        q <= p,
    ensures
        gap_start(toks, p) == gap_start(toks, q),
{
    if toks.len() > 0 {
        assert(toks[toks.len() - 1].span.end <= q);
    }
}

proof fn lemma_push_token(b: Seq<u8>, toks: Seq<Token>, t: Token)
    requires
        forall|p: int| 0 <= p < t.span.start ==> accounted(b, toks, p),
        forall|k: int| 0 <= k < toks.len() ==> (#[trigger] toks[k]).span.end <= t.span.start,
        t.span.start < t.span.end,
    ensures
        forall|p: int| 0 <= p < t.span.end ==> accounted(b, toks.push(t), p),
        forall|p: int| 0 <= p < t.span.end ==> gap_start(toks.push(t), p) == gap_start(toks, p),
        gap_start(toks.push(t), t.span.end as int) == t.span.end,
{
    let all = toks.push(t);
    assert(all.drop_last() =~= toks);
    assert forall|p: int| 0 <= p < t.span.end implies gap_start(all, p) == gap_start(toks, p) by {
        assert(all.last() == t);
    }
    assert forall|p: int| 0 <= p < t.span.end implies accounted(b, all, p) by {
        if p < t.span.start {
            assert(all.last() == t);
            assert(gap_start(all, p) == gap_start(toks, p));
            assert(accounted(b, toks, p));
            if covered(toks, p) {
                let k = choose|k: int|
                    0 <= k < toks.len() && (#[trigger] toks[k]).span.start <= p < toks[k].span.end;
                assert(all[k] == toks[k]);
                assert(covered(all, p));
            } else {
                assert(trivia_at(b, gap_start(all, p), p));
            }
        } else {
            assert(all[toks.len() as int] == t);
            assert(covered(all, p));
        }
    }
}

/// Why lexing stops at `at.start`: no token starts there; or the digits of
/// `at` run to their end and their value does not fit in a `u64`; or an
/// identifier starts there and every symbol of the interner is taken.
pub open spec fn lex_failure(b: Seq<u8>, names: Seq<Seq<char>>, at: Span) -> bool {
    let p = at.start as int;
    let q = at.end as int;
    ||| unrecognized(b, p) && q == p + 1
    ||| {
        &&& is_digit(b[p])
        &&& forall|k: int| p <= k < q ==> is_digit(#[trigger] b[k])
        &&& (q == b.len() || !is_digit(b[q]))
        &&& decimal(b.subrange(p, q)) > u64::MAX
    }
    ||| is_ident_start(b[p]) && names.len() > u32::MAX
}

/// The diagnostic `e` is one the lexer gives for `b`: the bytes before
/// `e.span_of()` lex cleanly, no comment runs into it, and `lex_failure` says why
/// lexing stops there.
pub open spec fn lex_stopped(b: Seq<u8>, names: Seq<Seq<char>>, e: Error) -> bool {
    &&& e.kind_of() is General
    &&& e.label_of() is None
    &&& e.span_of().start < e.span_of().end <= b.len()
    &&& lex_failure(b, names, e.span_of())
    &&& exists|toks: Seq<Token>|
        lexed(b.subrange(0, e.span_of().start as int), names, toks) && !open_comment(
            b,
            gap_start(toks, e.span_of().start as int),
            e.span_of().start as int,
        )
}

/// Every token of a lexed buffer lies within it, in order; a buffer of
/// whitespace alone holds no token.
pub proof fn lemma_lexed_spans(b: Seq<u8>, names: Seq<Seq<char>>, toks: Seq<Token>)
    requires
        lexed(b, names, toks),
    ensures
        forall|k: int|
            0 <= k < toks.len() ==> (#[trigger] toks[k]).span.start <= toks[k].span.end <= b.len(),
        forall|k: int, l: int|
            0 <= k < l < toks.len() ==> (#[trigger] toks[k]).span.end <= (#[trigger] toks[l]).span.start,
        (forall|p: int| 0 <= p < b.len() ==> is_ws(#[trigger] b[p])) ==> toks.len() == 0,
{
    assert forall|k: int| 0 <= k < toks.len() implies (#[trigger] toks[k]).span.start
        <= toks[k].span.end <= b.len() by {
        assert(token_reads(b, names, toks[k]));
    }
    if toks.len() > 0 && forall|p: int| 0 <= p < b.len() ==> is_ws(#[trigger] b[p]) {
        let t = toks[0];
        assert(token_reads(b, names, t));
        let text = b.subrange(t.span.start as int, t.span.end as int);
        assert(text[0] == b[t.span.start as int]);
        assert(is_ws(text[0]));
        match t.kind {
            TokenKind::Identifier(_) => {},
            TokenKind::Integer(_) => {
                assert(is_digit(text[0]));
            },
            k => {
                assert(text == spelling(k));
            },
        }
    }
}

proof fn lemma_gap_start_nonneg(toks: Seq<Token>, p: int)
    ensures
        gap_start(toks, p) >= 0,
    decreases toks.len(),
{
    if toks.len() > 0 {
        lemma_gap_start_nonneg(toks.drop_last(), p);
    }
}

proof fn lemma_prefix_lexed(b: Seq<u8>, names: Seq<Seq<char>>, toks: Seq<Token>, i: int)
    requires
        0 <= i <= b.len(),
        forall|k: int| 0 <= k < toks.len() ==> token_reads(b, names, #[trigger] toks[k]),
        forall|k: int, l: int|
            0 <= k < l < toks.len() ==> (#[trigger] toks[k]).span.end <= (#[trigger] toks[l]).span.start,
        forall|k: int| 0 <= k < toks.len() ==> (#[trigger] toks[k]).span.end <= i,
        forall|p: int| 0 <= p < i ==> accounted(b, toks, p),
        forall|k: int|
            0 <= k < toks.len() ==> !open_comment(
                b,
                gap_start(toks, (#[trigger] toks[k]).span.start as int),
                toks[k].span.start as int,
            ),
    ensures
        lexed(b.subrange(0, i), names, toks),
{
    let c = b.subrange(0, i);
    assert forall|k: int| 0 <= k < toks.len() implies !open_comment(
        c,
        gap_start(toks, (#[trigger] toks[k]).span.start as int),
        toks[k].span.start as int,
    ) by {
        let lo = gap_start(toks, toks[k].span.start as int);
        let p = toks[k].span.start as int;
        assert(token_reads(b, names, toks[k]));
        if open_comment(c, lo, p) {
            let q = choose|q: int|
                lo <= q < p && c[q] == 35u8 && forall|r: int| q <= r < p ==> #[trigger] c[r] != 10u8;
            lemma_gap_start_nonneg(toks, p);
            assert(forall|r: int| q <= r < p ==> #[trigger] b[r] == c[r]);
            assert(open_comment(b, lo, p));
        }
    }
    assert forall|k: int| 0 <= k < toks.len() implies token_reads(c, names, #[trigger] toks[k]) by {
        let t = toks[k];
        assert(token_reads(b, names, t));
        assert(c.subrange(t.span.start as int, t.span.end as int) =~= b.subrange(
            t.span.start as int,
            t.span.end as int,
        ));
        if (t.span.end as int) < i {
            assert(c[t.span.end as int] == b[t.span.end as int]);
        }
        assert forall|k2: TokenKind| spelled_at(c, t.span.start as int, k2) implies spelled_at(
            b,
            t.span.start as int,
            k2,
        ) by {
            let st = t.span.start as int;
            assert(c.subrange(st, st + spelling(k2).len()) =~= b.subrange(
                st,
                st + spelling(k2).len(),
            ));
        }
    }
    assert forall|p: int| 0 <= p < c.len() && !covered(toks, p) implies trivia_at(
        c,
        gap_start(toks, p),
        p,
    ) by {
        assert(accounted(b, toks, p));
        let lo = gap_start(toks, p);
        lemma_gap_start_nonneg(toks, p);
        if !is_ws(b[p]) {
            let q = choose|q: int|
                lo <= q <= p && b[q] == 35u8 && forall|r: int| q <= r <= p ==> #[trigger] b[r] != 10u8;
            assert(forall|r: int| q <= r <= p ==> #[trigger] c[r] == b[r]);
            assert(c[q] == 35u8);
        }
    }
}

/// Splits `src` into tokens, interning each identifier in `interner`.
/// Whitespace and `#` comments, which run to the end of their line, are
/// skipped. A byte that starts no token, or an integer that does not fit in
/// a `u64`, ends lexing with a `General` diagnostic at that place.
pub fn lex(src: &str, interner: &mut Interner) -> (r: Result<Vec<Token>, Error>)
    requires
        old(interner).wf(),
    ensures
        final(interner).wf(),
        old(interner)@.len() <= final(interner)@.len(),
        forall|k: int| 0 <= k < old(interner)@.len() ==> final(interner)@[k] == old(interner)@[k],
        r matches Ok(toks) ==> lexed(src.spec_bytes(), final(interner)@, toks@),
        r matches Err(e) ==> lex_stopped(src.spec_bytes(), final(interner)@, e),
{
    let b = src.as_bytes();
    let n = b.len();
    let mut toks: Vec<Token> = Vec::new();
    let mut i: usize = 0;
    while i < n
        invariant
            b@ == src.spec_bytes(),
            n == b@.len(),
            i <= n,
            interner.wf(),
            old(interner)@.len() <= interner@.len(),
            forall|k: int| 0 <= k < old(interner)@.len() ==> interner@[k] == old(interner)@[k],
            forall|k: int| 0 <= k < toks@.len() ==> token_reads(b@, interner@, #[trigger] toks@[k]),
            forall|k: int, l: int|
                0 <= k < l < toks@.len() ==> (#[trigger] toks@[k]).span.end <= (
                #[trigger] toks@[l]).span.start,
            forall|k: int| 0 <= k < toks@.len() ==> (#[trigger] toks@[k]).span.end <= i,
            forall|p: int| 0 <= p < i ==> accounted(b@, toks@, p),
            open_comment(b@, gap_start(toks@, i as int), i as int) ==> (i == n || b@[i as int]
                == 10u8),
            forall|k: int|
                0 <= k < toks@.len() ==> !open_comment(
                    b@,
                    gap_start(toks@, (#[trigger] toks@[k]).span.start as int),
                    toks@[k].span.start as int,
                ),
        decreases n - i,
    {
        let c = b[i];
        if c == 32u8 || c == 9u8 || c == 10u8 || c == 13u8 {
            assert(trivia_at(b@, gap_start(toks@, i as int), i as int));
            proof {
                let lo = gap_start(toks@, i as int);
                lemma_gap_start_stable(toks@, i as int, i + 1);
                if open_comment(b@, lo, i + 1) {
                    let q = choose|q: int|
                        lo <= q < i + 1 && b@[q] == 35u8 && forall|r: int|
                            q <= r < i + 1 ==> #[trigger] b@[r] != 10u8;
                    assert(b@[i as int] != 10u8);
                    assert(q < i);
                    assert(open_comment(b@, lo, i as int));
                }
            }
            i = i + 1;
        } else if c == 35u8 {
            let q = i;
            proof {
                lemma_gap_start_after(toks@, q as int, q as int);
            }
            while i < n && b[i] != 10u8
                invariant
                    b@ == src.spec_bytes(),
                    n == b@.len(),
                    q <= i <= n,
                    b@[q as int] == 35u8,
                    forall|k: int| 0 <= k < toks@.len() ==> (#[trigger] toks@[k]).span.end <= q,
                    forall|r: int| q <= r < i ==> #[trigger] b@[r] != 10u8,
                    forall|p: int| 0 <= p < i ==> accounted(b@, toks@, p),
                    forall|k: int|
                        0 <= k < toks@.len() ==> !open_comment(
                            b@,
                            gap_start(toks@, (#[trigger] toks@[k]).span.start as int),
                            toks@[k].span.start as int,
                        ),
                decreases n - i,
            {
                proof {
                    lemma_gap_start_after(toks@, i as int, q as int);
                    assert(forall|r: int| q <= r <= i ==> #[trigger] b@[r] != 10u8);
                }
                i = i + 1;
            }
        } else {
            let start = i;
            assert(!open_comment(b@, gap_start(toks@, start as int), start as int));
            let (kind, end): (TokenKind, usize) = if (97u8 <= c && c <= 122u8) || (65u8 <= c
                && c <= 90u8) || c == 95u8 {
                let end = run_end(b, start, false);
                match keyword(b, start, end) {
                    Some(k) => (k, end),
                    None => {
                        let ghost text = b@.subrange(start as int, end as int);
                        let text_bytes = vstd::slice::slice_subrange(b, start, end);
                        assert(text_bytes@ == text);
                        assert forall|k: int| 0 <= k < text_bytes@.len() implies text_bytes@[k]
                            < 128 by {
                            assert(is_ident_char(b@[start + k]));
                        }
                        let text_string = ascii_string(text_bytes);
                        match interner.intern(text_string.as_str()) {
                            Ok(sym) => {
                                assert(interner@[sym.id as int] == ascii_chars(text));
                                (TokenKind::Identifier(sym), end)
                            },
                            Err(_) => {
                                proof {
                                    lemma_prefix_lexed(b@, interner@, toks@, start as int);
                                }
                                return Err(Error::general(
                                    Span { start, end },
                                    "too many distinct identifiers",
                                    None,
                                ));
                            },
                        }
                    },
                }
            } else if 48u8 <= c && c <= 57u8 {
                let end = run_end(b, start, true);
                match decimal_value(b, start, end) {
                    Some(v) => (TokenKind::Integer(v), end),
                    None => {
                        proof {
                            lemma_prefix_lexed(b@, interner@, toks@, start as int);
                        }
                        return Err(Error::general(
                            Span { start, end },
                            "integer literal too large",
                            None,
                        ));
                    },
                }
            } else {
                match symbol(b, start) {
                    Some((k, end)) => (k, end),
                    None => {
                        proof {
                            lemma_prefix_lexed(b@, interner@, toks@, start as int);
                        }
                        return Err(Error::general(
                            Span { start, end: start + 1 },
                            "unrecognized character",
                            None,
                        ));
                    },
                }
            };
            let t = Token { kind, span: Span { start, end } };
            proof {
                lemma_push_token(b@, toks@, t);
                let all = toks@.push(t);
                assert forall|k: int| 0 <= k < all.len() implies !open_comment(
                    b@,
                    gap_start(all, (#[trigger] all[k]).span.start as int),
                    all[k].span.start as int,
                ) by {
                    if k < toks@.len() {
                        assert(all[k] == toks@[k]);
                    }
                }
                assert(!open_comment(b@, gap_start(all, end as int), end as int));
            }
            toks.push(t);
            i = end;
        }
    }
    assert forall|p: int| 0 <= p < b@.len() && !covered(toks@, p) implies trivia_at(
        b@,
        gap_start(toks@, p),
        p,
    ) by {
        assert(accounted(b@, toks@, p));
    }
    Ok(toks)
}


/// The buffer put back together from `from` on: each gap, then the text of
/// the token after it, and at last what follows the final token.
pub open spec fn reassemble(b: Seq<u8>, toks: Seq<Token>, from: int) -> Seq<u8>
    decreases toks.len(),
{
    if toks.len() == 0 {
        b.subrange(from, b.len() as int)
    } else {
        let t = toks[0];
        b.subrange(from, t.span.start as int) + b.subrange(t.span.start as int, t.span.end as int)
            + reassemble(b, toks.drop_first(), t.span.end as int)
    }
}

proof fn lemma_reassemble_from(b: Seq<u8>, toks: Seq<Token>, from: int)
    requires
        0 <= from,
        forall|k: int| 0 <= k < toks.len() ==> from <= (#[trigger] toks[k]).span.start,
        forall|k: int|
            0 <= k < toks.len() ==> (#[trigger] toks[k]).span.start <= toks[k].span.end <= b.len(),
        forall|k: int, l: int|
            0 <= k < l < toks.len() ==> (#[trigger] toks[k]).span.end <= (#[trigger] toks[l]).span.start,
        from <= b.len(),
    ensures
        reassemble(b, toks, from) == b.subrange(from, b.len() as int),
    decreases toks.len(),
{
    if toks.len() > 0 {
        let t = toks[0];
        let rest = toks.drop_first();
        assert forall|k: int| 0 <= k < rest.len() implies t.span.end <= (#[trigger] rest[k]).span.start by {
            assert(rest[k] == toks[k + 1]);
        }
        assert forall|k: int, l: int| 0 <= k < l < rest.len() implies (#[trigger] rest[k]).span.end
            <= (#[trigger] rest[l]).span.start by {
            assert(rest[k] == toks[k + 1] && rest[l] == toks[l + 1]);
        }
        assert forall|k: int| 0 <= k < rest.len() implies (#[trigger] rest[k]).span.start
            <= rest[k].span.end <= b.len() by {
            assert(rest[k] == toks[k + 1]);
        }
        lemma_reassemble_from(b, rest, t.span.end as int);
        assert(b.subrange(from, t.span.start as int) + b.subrange(
            t.span.start as int,
            t.span.end as int,
        ) + b.subrange(t.span.end as int, b.len() as int) =~= b.subrange(from, b.len() as int));
    }
}

/// Lexing loses and reorders nothing: the token texts, in order and with the
/// discarded whitespace and comments between them, give back the whole
/// buffer, and every byte between tokens is whitespace or comment.
pub proof fn lemma_lex_reconstructs(b: Seq<u8>, names: Seq<Seq<char>>, toks: Seq<Token>)
    requires
        lexed(b, names, toks),
    ensures
        reassemble(b, toks, 0) == b,
        forall|p: int| 0 <= p < b.len() && !covered(toks, p) ==> trivia_at(b, gap_start(toks, p), p),
{
    assert forall|k: int| 0 <= k < toks.len() implies (#[trigger] toks[k]).span.start
        <= toks[k].span.end <= b.len() by {
        assert(token_reads(b, names, toks[k]));
    }
    lemma_reassemble_from(b, toks, 0);
    assert(b.subrange(0, b.len() as int) =~= b);
}

} // verus!
