use vstd::prelude::*;
use vstd::string::{StrSliceExecFns, StringSliceAdditionalSpecFns};
use crate::token::{Token, TokenV};

verus! {

/// A fatal scanning condition: an integer literal that does not fit in 32
/// signed bits must surface as a well-defined error, never a silent default.
#[derive(Debug, Clone, Copy, PartialEq, Eq, Structural)]
pub enum ScanError {
    IntegerOverflow,
}

/// The scanner: a single forward pass over the source bytes with one byte of
/// lookahead for the two-character operators.
#[derive(Debug)]
pub struct Lexer {
    input: Vec<u8>,
    position: usize,
    read_position: usize,
    current_char: u8,
}

/// The byte under the cursor; the cursor past the end reads as 0, which is
/// also how an embedded NUL byte ends the scan.
pub open spec fn char_at(input: Seq<u8>, pos: int) -> u8 {
    if 0 <= pos < input.len() {
        input[pos]
    } else {
        0
    }
}

pub open spec fn is_ws_b(c: u8) -> bool {
    c == 32u8 || c == 9u8 || c == 10u8 || c == 13u8
}

pub open spec fn is_letter_b(c: u8) -> bool {
    (97u8 <= c <= 122u8) || (65u8 <= c <= 90u8) || c == 95u8
}

pub open spec fn is_digit_b(c: u8) -> bool {
    48u8 <= c <= 57u8
}

/// First position at or after `pos` that does not hold whitespace.
pub open spec fn ws_end(input: Seq<u8>, pos: int) -> int
    decreases input.len() - pos,
{
    if 0 <= pos < input.len() && is_ws_b(input[pos]) {
        ws_end(input, pos + 1)
    } else {
        pos
    }
}

/// First position at or after `pos` that does not hold an identifier byte.
pub open spec fn ident_end(input: Seq<u8>, pos: int) -> int
    decreases input.len() - pos,
{
    if 0 <= pos < input.len() && is_letter_b(input[pos]) {
        ident_end(input, pos + 1)
    } else {
        pos
    }
}

/// First position at or after `pos` that does not hold a decimal digit.
pub open spec fn digits_end(input: Seq<u8>, pos: int) -> int
    decreases input.len() - pos,
{
    if 0 <= pos < input.len() && is_digit_b(input[pos]) {
        digits_end(input, pos + 1)
    } else {
        pos
    }
}

/// Value of the decimal digit run `input[start..end)`.
pub open spec fn digits_val(input: Seq<u8>, start: int, end: int) -> int
    decreases end - start,
{
    if start < end {
        digits_val(input, start, end - 1) * 10 + (input[end - 1] as int - 48u8 as int)
    } else {
        0
    }
}

pub open spec fn bytes_chars(bytes: Seq<u8>) -> Seq<char> {
    bytes.map_values(|b: u8| b as char)
}

/// An identifier is matched case-sensitively against the keyword set; every
/// other name becomes an `Ident` token.
pub open spec fn kw_token(bytes: Seq<u8>) -> TokenV {
    if bytes == seq![108u8, 101u8, 116u8] {
        TokenV::Let
    } else if bytes == seq![102u8, 110u8] {
        TokenV::Function
    } else if bytes == seq![116u8, 114u8, 117u8, 101u8] {
        TokenV::True
    } else if bytes == seq![102u8, 97u8, 108u8, 115u8, 101u8] {
        TokenV::False
    } else if bytes == seq![105u8, 102u8] {
        TokenV::If
    } else if bytes == seq![101u8, 108u8, 115u8, 101u8] {
        TokenV::Else
    } else if bytes == seq![114u8, 101u8, 116u8, 117u8, 114u8, 110u8] {
        TokenV::Return
    } else {
        TokenV::Ident(bytes_chars(bytes))
    }
}

/// One scanning step from position `pos`: the token found after skipping
/// whitespace, and the position just past it. The cursor does not move past
/// end of input, so the step at the end returns `EOF` at the same position,
/// again and again.
pub open spec fn spec_next_token(input: Seq<u8>, pos0: int) -> (Result<TokenV, ScanError>, int) {
    let pos = ws_end(input, pos0);
    let c = char_at(input, pos);
    if c == 0 {
        (Ok(TokenV::EOF), pos)
    } else if c == 61u8 {
        if char_at(input, pos + 1) == 61u8 {
            (Ok(TokenV::Eq), pos + 2)
        } else {
            (Ok(TokenV::Assign), pos + 1)
        }
    } else if c == 59u8 {
        (Ok(TokenV::Semicolon), pos + 1)
    } else if c == 40u8 {
        (Ok(TokenV::LParen), pos + 1)
    } else if c == 41u8 {
        (Ok(TokenV::RParen), pos + 1)
    } else if c == 44u8 {
        (Ok(TokenV::Comma), pos + 1)
    } else if c == 43u8 {
        (Ok(TokenV::Plus), pos + 1)
    } else if c == 123u8 {
        (Ok(TokenV::LBrace), pos + 1)
    } else if c == 125u8 {
        (Ok(TokenV::RBrace), pos + 1)
    } else if c == 45u8 {
        (Ok(TokenV::Minus), pos + 1)
    } else if c == 33u8 {
        if char_at(input, pos + 1) == 61u8 {
            (Ok(TokenV::NotEq), pos + 2)
        } else {
            (Ok(TokenV::Bang), pos + 1)
        }
    } else if c == 42u8 {
        (Ok(TokenV::Asterisk), pos + 1)
    } else if c == 47u8 {
        (Ok(TokenV::Slash), pos + 1)
    } else if c == 60u8 {
        (Ok(TokenV::Lt), pos + 1)
    } else if c == 62u8 {
        (Ok(TokenV::Gt), pos + 1)
    } else if is_letter_b(c) {
        let e = ident_end(input, pos);
        (Ok(kw_token(input.subrange(pos, e))), e)
    } else if is_digit_b(c) {
        let e = digits_end(input, pos);
        let v = digits_val(input, pos, e);
        if v <= i32::MAX {
            (Ok(TokenV::Int(v as i32)), e)
        } else {
            (Err(ScanError::IntegerOverflow), e)
        }
    } else {
        (Ok(TokenV::Illegal), pos + 1)
    }
}

pub open spec fn tok_res_view(r: Result<Token, ScanError>) -> Result<TokenV, ScanError> {
    match r {
        Ok(t) => Ok(t@),
        Err(e) => Err(e),
    }
}

/// Repeated scanning past the end of the input keeps returning `EOF` from the
/// same position: the scanner is idempotent at the end of its input.
pub proof fn lemma_scan_idempotent_at_end(input: Seq<u8>, pos: int)
    requires
        spec_next_token(input, pos).0 == Ok::<TokenV, ScanError>(TokenV::EOF),
    ensures
        spec_next_token(input, spec_next_token(input, pos).1) == (
            Ok::<TokenV, ScanError>(TokenV::EOF),
            spec_next_token(input, pos).1,
        ),
{
    let p = ws_end(input, pos);
    assert(char_at(input, p) == 0);
    assert(ws_end(input, p) == p);
}

impl Lexer {
    /// The cursor fields stay in lockstep: one byte of lookahead, capped at
    /// the end of the input, and the byte under the cursor cached in
    /// `current_char`.
    pub closed spec fn wf(&self) -> bool {
        &&& self.position <= self.input@.len()
        &&& self.read_position == (if self.position + 1 <= self.input@.len() {
            self.position + 1
        } else {
            self.input@.len() as int
        })
        &&& self.current_char == char_at(self.input@, self.position as int)
    }

    /// The source bytes being scanned.
    pub closed spec fn inp(&self) -> Seq<u8> {
        self.input@
    }

    /// The cursor position.
    pub closed spec fn pos(&self) -> int {
        self.position as int
    }

    fn is_letter(&self) -> (r: bool)
        ensures
            r == is_letter_b(self.current_char),
    {
        let letter = self.current_char;
        (letter >= 97u8 && letter <= 122u8) || (letter >= 65u8 && letter <= 90u8) || letter == 95u8
    }

    fn is_digit(&self) -> (r: bool)
        ensures
            r == is_digit_b(self.current_char),
    {
        let letter = self.current_char;
        letter >= 48u8 && letter <= 57u8
    }


    fn peek_char(&self) -> (r: u8)
        requires
            self.wf(),
        ensures
            r == char_at(self.inp(), self.pos() + 1),
    {
        let l = self.input.len();
        if self.read_position >= l {
            0
        } else {
            self.input[self.read_position]
        }
    }

    fn read_char(&mut self)
        requires
            old(self).wf(),
            old(self).pos() < old(self).inp().len(),
        ensures
            final(self).wf(),
            final(self).inp() == old(self).inp(),
            final(self).pos() == old(self).pos() + 1,
    {
        let l = self.input.len();
        if self.read_position >= l {
            self.current_char = 0;
        } else {
            self.current_char = self.input[self.read_position];
        }
        self.position = self.read_position;
        if self.read_position < l {
            self.read_position = self.read_position + 1;
        }
    }

    fn skip_whitespaces(&mut self)
        requires
            old(self).wf(),
        ensures
            final(self).wf(),
            final(self).inp() == old(self).inp(),
            final(self).pos() == ws_end(old(self).inp(), old(self).pos()),
    {
        while self.current_char == 32u8 || self.current_char == 9u8 || self.current_char == 10u8
            || self.current_char == 13u8
            invariant
                self.wf(),
                self.inp() == old(self).inp(),
                ws_end(self.inp(), self.pos()) == ws_end(old(self).inp(), old(self).pos()),
            decreases self.inp().len() - self.pos(),
        {
            self.read_char();
        }
    }

    #[verifier::loop_isolation(false)]
    fn read_identifier(&mut self) -> (t: Token)
        requires
            old(self).wf(),
            is_letter_b(char_at(old(self).inp(), old(self).pos())),
        ensures
            final(self).wf(),
            final(self).inp() == old(self).inp(),
            final(self).pos() == ident_end(old(self).inp(), old(self).pos()),
            t@ == kw_token(
                old(self).inp().subrange(
                    old(self).pos(),
                    ident_end(old(self).inp(), old(self).pos()),
                ),
            ),
    {
        let ghost start = self.pos();
        let mut bytes: Vec<u8> = Vec::new();
        proof {
            assert(bytes@ =~= self.inp().subrange(start, self.pos()));
        }
        while self.is_letter()
            invariant
                self.wf(),
                self.inp() == old(self).inp(),
                start <= self.pos() <= self.inp().len(),
                ident_end(self.inp(), self.pos()) == ident_end(old(self).inp(), start),
                bytes@ == self.inp().subrange(start, self.pos()),
                forall|j: int| 0 <= j < bytes@.len() ==> is_letter_b(bytes@[j]),
            decreases self.inp().len() - self.pos(),
        {
            proof {
                assert(self.pos() < self.inp().len());
            }
            bytes.push(self.current_char);
            self.read_char();
            proof {
                assert(bytes@ =~= self.inp().subrange(start, self.pos()));
            }
        }
        keyword_token(bytes)
    }

    #[verifier::loop_isolation(false)]
    fn read_digit(&mut self) -> (r: Result<Token, ScanError>)
        requires
            old(self).wf(),
            is_digit_b(char_at(old(self).inp(), old(self).pos())),
        ensures
            final(self).wf(),
            final(self).inp() == old(self).inp(),
            final(self).pos() == digits_end(old(self).inp(), old(self).pos()),
            ({
                let v = digits_val(
                    old(self).inp(),
                    old(self).pos(),
                    digits_end(old(self).inp(), old(self).pos()),
                );
                tok_res_view(r) == if v <= i32::MAX {
                    Ok::<TokenV, ScanError>(TokenV::Int(v as i32))
                } else {
                    Err::<TokenV, ScanError>(ScanError::IntegerOverflow)
                }
            }),
    {
        let ghost start = self.pos();
        let mut value: u64 = 0;
        let mut over: bool = false;
        while self.is_digit()
            invariant
                self.wf(),
                self.inp() == old(self).inp(),
                start <= self.pos() <= self.inp().len(),
                digits_end(self.inp(), self.pos()) == digits_end(old(self).inp(), start),
                over == (digits_val(self.inp(), start, self.pos()) > i32::MAX),
                !over ==> value == digits_val(self.inp(), start, self.pos()),
                digits_val(self.inp(), start, self.pos()) >= 0,
            decreases self.inp().len() - self.pos(),
        {
            let ghost pv = digits_val(self.inp(), start, self.pos());
            let d: u8 = self.current_char - 48u8;
            if !over {
                value = value * 10 + d as u64;
                if value > i32::MAX as u64 {
                    over = true;
                }
            } else {
                proof {
                    assert(pv * 10 + (d as int) > i32::MAX) by (nonlinear_arith)
                        requires
                            pv > i32::MAX,
                            d as int >= 0,
                    ;
                }
            }
            self.read_char();
            proof {
                assert(digits_val(self.inp(), start, self.pos()) == pv * 10 + (
                self.inp()[self.pos() - 1] as int - 48u8 as int));
            }
        }
        if over {
            Err(ScanError::IntegerOverflow)
        } else {
            Ok(Token::Int(value as i32))
        }
    }

    /// Scans and returns exactly one token, advancing the cursor past it;
    /// once the input is exhausted every further call returns `EOF` and
    /// leaves the scanner unchanged.
    pub fn next_token(&mut self) -> (r: Result<Token, ScanError>)
        requires
            old(self).wf(),
        ensures
            final(self).wf(),
            final(self).inp() == old(self).inp(),
            tok_res_view(r) == spec_next_token(old(self).inp(), old(self).pos()).0,
            final(self).pos() == spec_next_token(old(self).inp(), old(self).pos()).1,
            char_at(old(self).inp(), old(self).pos()) == 0 ==> final(self).pos() == old(
                self,
            ).pos() && r == Ok::<Token, ScanError>(Token::EOF),
    {
        self.skip_whitespaces();
        match self.current_char {
            0 => Ok(Token::EOF),
            61u8 => {
                if self.peek_char() == 61u8 {
                    self.read_char();
                    self.read_char();
                    Ok(Token::Eq)
                } else {
                    self.read_char();
                    Ok(Token::Assign)
                }
            },
            59u8 => {
                self.read_char();
                Ok(Token::Semicolon)
            },
            40u8 => {
                self.read_char();
                Ok(Token::LParen)
            },
            41u8 => {
                self.read_char();
                Ok(Token::RParen)
            },
            44u8 => {
                self.read_char();
                Ok(Token::Comma)
            },
            43u8 => {
                self.read_char();
                Ok(Token::Plus)
            },
            123u8 => {
                self.read_char();
                Ok(Token::LBrace)
            },
            125u8 => {
                self.read_char();
                Ok(Token::RBrace)
            },
            45u8 => {
                self.read_char();
                Ok(Token::Minus)
            },
            33u8 => {
                if self.peek_char() == 61u8 {
                    self.read_char();
                    self.read_char();
                    Ok(Token::NotEq)
                } else {
                    self.read_char();
                    Ok(Token::Bang)
                }
            },
            42u8 => {
                self.read_char();
                Ok(Token::Asterisk)
            },
            47u8 => {
                self.read_char();
                Ok(Token::Slash)
            },
            60u8 => {
                self.read_char();
                Ok(Token::Lt)
            },
            62u8 => {
                self.read_char();
                Ok(Token::Gt)
            },
            _ => {
                if self.is_letter() {
                    Ok(self.read_identifier())
                } else if self.is_digit() {
                    self.read_digit()
                } else {
                    self.read_char();
                    Ok(Token::Illegal)
                }
            },
        }
    }

    /// A scanner over the UTF-8 bytes of `input`, with the cursor on the
    /// first byte.
    pub fn new(input: &str) -> (l: Lexer)
        ensures
            l.wf(),
            l.inp() == input.spec_bytes(),
            l.pos() == 0,
    {
        let bytes = input.as_bytes_vec();
        let c = bytes_first(&bytes);
        let rp: usize = if bytes.len() >= 1 {
            1
        } else {
            0
        };
        Lexer { input: bytes, position: 0, read_position: rp, current_char: c }
    }
}

/// The first byte of `v`, or 0 when `v` is empty.
fn bytes_first(v: &Vec<u8>) -> (r: u8)
    ensures
        r == char_at(v@, 0),
{
    if v.len() == 0 {
        0
    } else {
        v[0]
    }
}

/// Keyword lookup on the collected identifier bytes.
fn keyword_token(bytes: Vec<u8>) -> (t: Token)
    requires
        forall|j: int| 0 <= j < bytes@.len() ==> is_letter_b(bytes@[j]),
    ensures
        t@ == kw_token(bytes@),
{
    if bytes.len() == 3 && bytes[0] == 108u8 && bytes[1] == 101u8 && bytes[2] == 116u8 {
        proof {
            assert(bytes@ =~= seq![108u8, 101u8, 116u8]);
        }
        Token::Let
    } else if bytes.len() == 2 && bytes[0] == 102u8 && bytes[1] == 110u8 {
        proof {
            assert(bytes@ =~= seq![102u8, 110u8]);
        }
        Token::Function
    } else if bytes.len() == 4 && bytes[0] == 116u8 && bytes[1] == 114u8 && bytes[2] == 117u8
        && bytes[3] == 101u8 {
        proof {
            assert(bytes@ =~= seq![116u8, 114u8, 117u8, 101u8]);
        }
        Token::True
    } else if bytes.len() == 5 && bytes[0] == 102u8 && bytes[1] == 97u8 && bytes[2] == 108u8
        && bytes[3] == 115u8 && bytes[4] == 101u8 {
        proof {
            assert(bytes@ =~= seq![102u8, 97u8, 108u8, 115u8, 101u8]);
        }
        Token::False
    } else if bytes.len() == 2 && bytes[0] == 105u8 && bytes[1] == 102u8 {
        proof {
            assert(bytes@ =~= seq![105u8, 102u8]);
        }
        Token::If
    } else if bytes.len() == 4 && bytes[0] == 101u8 && bytes[1] == 108u8 && bytes[2] == 115u8
        && bytes[3] == 101u8 {
        proof {
            assert(bytes@ =~= seq![101u8, 108u8, 115u8, 101u8]);
        }
        Token::Else
    } else if bytes.len() == 6 && bytes[0] == 114u8 && bytes[1] == 101u8 && bytes[2] == 116u8
        && bytes[3] == 117u8 && bytes[4] == 114u8 && bytes[5] == 110u8 {
        proof {
            assert(bytes@ =~= seq![114u8, 101u8, 116u8, 117u8, 114u8, 110u8]);
        }
        Token::Return
    } else {
        proof {
            assert(bytes@ != seq![108u8, 101u8, 116u8]);
            assert(bytes@ != seq![102u8, 110u8]);
            assert(bytes@ != seq![116u8, 114u8, 117u8, 101u8]);
            assert(bytes@ != seq![102u8, 97u8, 108u8, 115u8, 101u8]);
            assert(bytes@ != seq![105u8, 102u8]);
            assert(bytes@ != seq![101u8, 108u8, 115u8, 101u8]);
            assert(bytes@ != seq![114u8, 101u8, 116u8, 117u8, 114u8, 110u8]);
        }
        Token::Ident(ascii_to_string(bytes))
    }
}

/// Relies on `String::from_utf8`: ASCII bytes are valid UTF-8 and decode to
/// one character per byte; with every byte below 128 the call cannot fail.
#[verifier::external_body]
pub(crate) fn ascii_to_string(bytes: Vec<u8>) -> (r: String)
    requires
        forall|j: int| 0 <= j < bytes@.len() ==> bytes@[j] < 128,
    ensures
        r@ == bytes_chars(bytes@),
{
    String::from_utf8(bytes).unwrap()
}

} // verus!
