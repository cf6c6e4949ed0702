//! The token source: bytes of a source file in, tokens with locations out.
use vstd::prelude::*;
use crate::diagnostic::{push_decimal, push_str, ErrKind, TVErr};
use crate::token::{Location, TokV, Token, TokenKind};

verus! {

pub open spec fn is_ws(b: u8) -> bool {
    b == 32 || b == 9 || b == 13 || b == 10
}

pub open spec fn is_delim(b: u8) -> bool {
    b == 60 || b == 62 || b == 40 || b == 41
}

/// A byte that can be part of a word: not whitespace, a delimiter, `"` or `;`.
pub open spec fn is_word_byte(b: u8) -> bool {
    !is_ws(b) && !is_delim(b) && b != 34 && b != 59
}

/// The 1-based line of position `p`.
pub open spec fn line_at(s: Seq<u8>, p: int) -> int
    decreases p,
{
    if p <= 0 || p > s.len() {
        1
    } else {
        line_at(s, p - 1) + (if s[p - 1] == 10 { 1int } else { 0int })
    }
}

/// The 1-based column of position `p`.
pub open spec fn col_at(s: Seq<u8>, p: int) -> int
    decreases p,
{
    if p <= 0 || p > s.len() {
        1
    } else if s[p - 1] == 10 {
        1
    } else {
        col_at(s, p - 1) + 1
    }
}

/// The first position at or after `p` that starts a token or ends the input,
/// passing over whitespace and `;` comments (which run to the end of the line).
pub open spec fn skip(s: Seq<u8>, p: int, in_comment: bool) -> int
    decreases s.len() - p,
{
    if p < 0 || p >= s.len() {
        p
    } else if in_comment {
        skip(s, p + 1, s[p] != 10)
    } else if is_ws(s[p]) {
        skip(s, p + 1, false)
    } else if s[p] == 59 {
        skip(s, p + 1, true)
    } else {
        p
    }
}

/// The end of the run of word bytes that starts at `p`.
pub open spec fn word_end(s: Seq<u8>, p: int) -> int
    decreases s.len() - p,
{
    if 0 <= p < s.len() && is_word_byte(s[p]) {
        word_end(s, p + 1)
    } else {
        p
    }
}

/// The body of a text from `p` (just after its opening quote): its value with
/// escapes resolved and the position after the closing quote, or `None` when
/// the input ends first.
pub open spec fn text_scan(s: Seq<u8>, p: int) -> Option<(Seq<u8>, int)>
    decreases s.len() - p,
{
    if p < 0 || p >= s.len() {
        None
    } else if s[p] == 34 {
        Some((Seq::empty(), p + 1))
    } else if s[p] == 92 {
        if p + 1 >= s.len() {
            None
        } else {
            match text_scan(s, p + 2) {
                Some((v, e)) => Some((seq![s[p + 1]] + v, e)),
                None => None,
            }
        }
    } else {
        match text_scan(s, p + 1) {
            Some((v, e)) => Some((seq![s[p]] + v, e)),
            None => None,
        }
    }
}

/// One token as positions in the input.
pub struct Lexeme {
    pub kind: TokenKind,
    pub value: Seq<u8>,
    pub start: int,
    pub end: int,
}

/// What the token source finds from position `p`.
pub enum LexStep {
    Tok(Lexeme),
    End(int),
    Unterminated(int),
}

pub open spec fn delim_kind(b: u8) -> TokenKind {
    if b == 60 {
        TokenKind::LeftAngle
    } else if b == 62 {
        TokenKind::RightAngle
    } else if b == 40 {
        TokenKind::LeftParen
    } else {
        TokenKind::RightParen
    }
}

pub open spec fn next_lex(s: Seq<u8>, p: int) -> LexStep {
    let q = skip(s, p, false);
    if q < 0 || q >= s.len() {
        LexStep::End(q)
    } else if is_delim(s[q]) {
        LexStep::Tok(Lexeme { kind: delim_kind(s[q]), value: Seq::empty(), start: q, end: q + 1 })
    } else if s[q] == 34 {
        match text_scan(s, q + 1) {
            Some((v, e)) => LexStep::Tok(Lexeme { kind: TokenKind::Text, value: v, start: q, end: e }),
            None => LexStep::Unterminated(q),
        }
    } else {
        LexStep::Tok(
            Lexeme { kind: TokenKind::Word, value: s.subrange(q, word_end(s, q)), start: q, end: word_end(s, q) },
        )
    }
}

/// The token that a lexeme becomes in file `file`.
pub open spec fn tok_of(s: Seq<u8>, file: usize, l: Lexeme) -> TokV {
    TokV {
        kind: l.kind,
        value: l.value,
        loc: Location { file, line: line_at(s, l.start) as usize, column: col_at(s, l.start) as usize },
    }
}

/// All tokens from position `p`, or `None` on a lexical error.
pub open spec fn lex_from(s: Seq<u8>, p: int) -> Option<Seq<Lexeme>>
    decreases s.len() - p,
{
    match next_lex(s, p) {
        LexStep::End(_) => Some(Seq::empty()),
        LexStep::Unterminated(_) => None,
        LexStep::Tok(l) => if p < l.end <= s.len() {
            match lex_from(s, l.end) {
                Some(rest) => Some(seq![l] + rest),
                None => None,
            }
        } else {
            None
        },
    }
}

pub proof fn lemma_line_col_bound(s: Seq<u8>, p: int)
    requires
        0 <= p <= s.len(),
    ensures
        1 <= line_at(s, p) <= p + 1,
        1 <= col_at(s, p) <= p + 1,
    decreases p,
{
    if p > 0 {
        lemma_line_col_bound(s, p - 1);
    }
}

proof fn lemma_skip_bounds(s: Seq<u8>, p: int, c: bool)
    requires
        0 <= p <= s.len(),
    ensures
        p <= skip(s, p, c) <= s.len(),
        skip(s, p, c) < s.len() ==> !is_ws(s[skip(s, p, c)]) && s[skip(s, p, c)] != 59,
    decreases s.len() - p,
{
    if p < s.len() {
        if c || is_ws(s[p]) || s[p] == 59 {
            lemma_skip_bounds(s, p + 1, if c { s[p] != 10 } else { s[p] == 59 });
        }
    }
}

proof fn lemma_word_end_bounds(s: Seq<u8>, p: int)
    requires
        0 <= p <= s.len(),
    ensures
        p <= word_end(s, p) <= s.len(),
    decreases s.len() - p,
{
    if p < s.len() && is_word_byte(s[p]) {
        lemma_word_end_bounds(s, p + 1);
    }
}

proof fn lemma_text_scan_bounds(s: Seq<u8>, p: int)
    requires
        0 <= p,
    ensures
        text_scan(s, p) matches Some((v, e)) ==> p < e <= s.len(),
    decreases s.len() - p,
{
    if 0 <= p < s.len() && s[p] != 34 {
        if s[p] == 92 {
            if p + 1 < s.len() {
                lemma_text_scan_bounds(s, p + 2);
            }
        } else {
            lemma_text_scan_bounds(s, p + 1);
        }
    }
}

/// A token found from `p` starts at or after `p` and ends after its start,
/// within the input.
pub proof fn lemma_next_lex_bounds(s: Seq<u8>, p: int)
    requires
        0 <= p <= s.len(),
    ensures
        next_lex(s, p) matches LexStep::Tok(l) ==> p <= l.start < l.end <= s.len(),
        next_lex(s, p) matches LexStep::End(q) ==> q == s.len(),
{
    lemma_skip_bounds(s, p, false);
    let q = skip(s, p, false);
    if q < s.len() {
        if s[q] == 34 {
            lemma_text_scan_bounds(s, q + 1);
        } else if !is_delim(s[q]) {
            lemma_word_end_bounds(s, q + 1);
        }
    }
}

/// Location `a` comes no later than location `b`: an earlier line, or the
/// same line and a column no greater.
pub open spec fn loc_le(a: Location, b: Location) -> bool {
    a.line < b.line || (a.line == b.line && a.column <= b.column)
}

/// Positions in order give (line, column) pairs in order.
pub proof fn lemma_line_col_monotone(s: Seq<u8>, p: int, q: int)
    requires
        0 <= p <= q <= s.len(),
    ensures
        line_at(s, p) < line_at(s, q) || (line_at(s, p) == line_at(s, q) && col_at(s, p) <= col_at(s, q)),
    decreases q - p,
{
    if p < q {
        lemma_line_col_monotone(s, p, q - 1);
    }
}

/// Every token from `p` lies within the input from `p`, and each starts after
/// the one before it has ended.
pub proof fn lemma_lex_from_ordered(s: Seq<u8>, p: int)
    requires
        0 <= p <= s.len(),
        lex_from(s, p) is Some,
    ensures
        forall|k: int| 0 <= k < lex_from(s, p)->Some_0.len() ==> p <= #[trigger] lex_from(s, p)->Some_0[k].start
            && lex_from(s, p)->Some_0[k].start < lex_from(s, p)->Some_0[k].end <= s.len(),
        forall|k: int, m: int| 0 <= k < m < lex_from(s, p)->Some_0.len() ==> #[trigger] lex_from(s, p)->Some_0[k].end
            <= #[trigger] lex_from(s, p)->Some_0[m].start,
    decreases s.len() - p,
{
    lemma_next_lex_bounds(s, p);
    match next_lex(s, p) {
        LexStep::Tok(l) => {
            lemma_lex_from_ordered(s, l.end);
            let rest = lex_from(s, l.end)->Some_0;
            let ls = lex_from(s, p)->Some_0;
            assert(ls == seq![l] + rest);
            assert forall|k: int| 0 <= k < ls.len() implies p <= #[trigger] ls[k].start && ls[k].start < ls[k].end
                <= s.len() by {
                if k > 0 {
                    assert(ls[k] == rest[k - 1]);
                }
            }
            assert forall|k: int, m: int| 0 <= k < m < ls.len() implies #[trigger] ls[k].end <= #[trigger] ls[m].start by {
                assert(ls[m] == rest[m - 1]);
                if k > 0 {
                    assert(ls[k] == rest[k - 1]);
                }
            }
        },
        _ => {},
    }
}

/// The locations of the tokens of an input never go backwards.
pub proof fn lemma_token_locations_monotone(s: Seq<u8>, file: usize)
    requires
        s.len() < usize::MAX,
        lex_from(s, 0) is Some,
    ensures
        forall|i: int, j: int| 0 <= i < j < lex_from(s, 0)->Some_0.len() ==> loc_le(
            #[trigger] tok_of(s, file, lex_from(s, 0)->Some_0[i]).loc,
            #[trigger] tok_of(s, file, lex_from(s, 0)->Some_0[j]).loc,
        ),
{
    lemma_lex_from_ordered(s, 0);
    let ls = lex_from(s, 0)->Some_0;
    assert forall|i: int, j: int| 0 <= i < j < ls.len() implies loc_le(
        #[trigger] tok_of(s, file, ls[i]).loc,
        #[trigger] tok_of(s, file, ls[j]).loc,
    ) by {
        assert(ls[i].end <= ls[j].start);
        lemma_line_col_monotone(s, ls[i].start, ls[j].start);
        lemma_line_col_bound(s, ls[i].start);
        lemma_line_col_bound(s, ls[j].start);
    }
}

/// A lazy, finite token source over the bytes of one file.
pub struct TokenGenerator {
    file_key: usize,
    input: Vec<u8>,
    pos: usize,
    line: usize,
    column: usize,
}

impl TokenGenerator {
    /// The generator is at a valid position with its line and column in step.
    pub closed spec fn wf(&self) -> bool {
        &&& self.input@.len() < usize::MAX
        &&& self.pos <= self.input@.len()
        &&& self.line == line_at(self.input@, self.pos as int)
        &&& self.column == col_at(self.input@, self.pos as int)
    }

    pub closed spec fn input(&self) -> Seq<u8> {
        self.input@
    }

    pub closed spec fn file(&self) -> usize {
        self.file_key
    }

    /// The position of the next byte to read.
    pub closed spec fn position(&self) -> int {
        self.pos as int
    }

    pub proof fn lemma_wf_position(&self)
        requires
            self.wf(),
        ensures
            0 <= self.position() <= self.input().len(),
            self.input().len() < usize::MAX,
    {
    }

    pub fn new(file_key: usize, input: Vec<u8>) -> (r: TokenGenerator)
        requires
            input@.len() < usize::MAX,
        ensures
            r.wf(),
            r.input() == input@,
            r.file() == file_key,
            r.position() == 0,
    {
        TokenGenerator { file_key, input, pos: 0, line: 1, column: 1 }
    }

    fn advance(&mut self)
        requires
            old(self).wf(),
            old(self).pos < old(self).input@.len(),
        ensures
            final(self).wf(),
            final(self).pos == old(self).pos + 1,
            final(self).input == old(self).input,
            final(self).file_key == old(self).file_key,
    {
        proof { lemma_line_col_bound(self.input@, self.pos as int); }
        if self.input[self.pos] == 10u8 {
            self.line = self.line + 1;
            self.column = 1;
        } else {
            self.column = self.column + 1;
        }
        self.pos = self.pos + 1;
    }

    fn location(&self) -> (r: Location)
        requires
            self.wf(),
        ensures
            r == (Location { file: self.file_key, line: line_at(self.input@, self.pos as int) as usize,
                column: col_at(self.input@, self.pos as int) as usize }),
    {
        Location { file: self.file_key, line: self.line, column: self.column }
    }

    /// Produces the next token; at the end of input it returns an `Eof` token,
    /// as often as it is asked.
    pub fn next(&mut self) -> (r: Result<Token, TVErr>)
        requires
            old(self).wf(),
        ensures
            final(self).wf(),
            final(self).input() == old(self).input(),
            final(self).file() == old(self).file(),
            match next_lex(old(self).input(), old(self).position()) {
                LexStep::End(q) => r matches Ok(t) && t.kind == TokenKind::Eof && t.value@.len() == 0
                    && final(self).position() == q,
                LexStep::Unterminated(_) => r matches Err(e) && e.spec_kind() == ErrKind::UnterminatedText,
                LexStep::Tok(l) => r matches Ok(t) && t@ == tok_of(old(self).input(), old(self).file(), l)
                    && final(self).position() == l.end,
            },
    {
        proof {
            lemma_skip_bounds(self.input@, self.pos as int, false);
            lemma_next_lex_bounds(self.input@, self.pos as int);
        }
        let ghost p_start = self.pos as int;
        let mut in_comment = false;
        while self.pos < self.input.len()
            invariant
                self.wf(),
                self.input == old(self).input,
                self.file_key == old(self).file_key,
                p_start <= self.pos,
                skip(self.input@, p_start, false) == skip(self.input@, self.pos as int, in_comment),
            ensures
                self.wf(),
                self.input == old(self).input,
                self.file_key == old(self).file_key,
                skip(self.input@, p_start, false) == self.pos,
            decreases self.input@.len() - self.pos,
        {
            let b = self.input[self.pos];
            if in_comment {
                in_comment = b != 10u8;
            } else if b == 32u8 || b == 9u8 || b == 13u8 || b == 10u8 {
            } else if b == 59u8 {
                in_comment = true;
            } else {
                break;
            }
            self.advance();
        }
        let ghost s = self.input@;
        let ghost q = self.pos as int;
        assert(q == skip(s, p_start, false));
        let loc = self.location();
        if self.pos >= self.input.len() {
            return Ok(Token { kind: TokenKind::Eof, value: Vec::new(), loc });
        }
        let b = self.input[self.pos];
        if b == 60u8 || b == 62u8 || b == 40u8 || b == 41u8 {
            let kind = if b == 60u8 {
                TokenKind::LeftAngle
            } else if b == 62u8 {
                TokenKind::RightAngle
            } else if b == 40u8 {
                TokenKind::LeftParen
            } else {
                TokenKind::RightParen
            };
            self.advance();
            return Ok(Token { kind, value: Vec::new(), loc });
        }
        if b == 34u8 {
            self.advance();
            let mut value: Vec<u8> = Vec::new();
            proof {
                match text_scan(s, self.pos as int) {
                    Some((v, e)) => { assert(value@ + v =~= v); },
                    None => {},
                }
            }
            loop
                invariant
                    self.wf(),
                    self.input == old(self).input,
                    self.file_key == old(self).file_key,
                    s == self.input@,
                    q < self.pos,
                    p_start == old(self).pos,
                    q == skip(s, p_start, false),
                    loc == (Location { file: old(self).file_key, line: line_at(s, q) as usize, column: col_at(s, q) as usize }),
                    0 <= q < s.len(),
                    s[q] == 34,
                    text_scan(s, q + 1) == match text_scan(s, self.pos as int) {
                        Some((v, e)) => Some((value@ + v, e)),
                        None => None::<(Seq<u8>, int)>,
                    },
                decreases self.input@.len() - self.pos,
            {
                if self.pos >= self.input.len() {
                    return Err(self.unterminated(loc));
                }
                let c = self.input[self.pos];
                let ghost p_orig = self.pos as int;
                if c == 34u8 {
                    self.advance();
                    assert(value@ + Seq::<u8>::empty() =~= value@);
                    return Ok(Token { kind: TokenKind::Text, value, loc });
                }
                if c == 92u8 {
                    if self.pos + 1 >= self.input.len() {
                        return Err(self.unterminated(loc));
                    }
                    self.advance();
                }
                let d = self.input[self.pos];
                let ghost old_value = value@;
                value.push(d);
                proof {
                    let p = self.pos as int;
                    assert(text_scan(s, p_orig) == match text_scan(s, p + 1) {
                        Some((v, e)) => Some((seq![d] + v, e)),
                        None => None::<(Seq<u8>, int)>,
                    });
                    match text_scan(s, p + 1) {
                        Some((v, e)) => { assert(old_value + (seq![d] + v) =~= value@ + v); },
                        None => {},
                    }
                }
                self.advance();
            }
        } else {
            let start = self.pos;
            proof { lemma_word_end_bounds(s, q); }
            while self.pos < self.input.len() && self.input[self.pos] != 32u8 && self.input[self.pos] != 9u8
                && self.input[self.pos] != 13u8 && self.input[self.pos] != 10u8 && self.input[self.pos]
                != 60u8 && self.input[self.pos] != 62u8 && self.input[self.pos] != 40u8 && self.input[self.pos]
                != 41u8 && self.input[self.pos] != 34u8 && self.input[self.pos] != 59u8
                invariant
                    self.wf(),
                    self.input == old(self).input,
                    self.file_key == old(self).file_key,
                    s == self.input@,
                    start as int == q <= self.pos,
                    word_end(s, q) == word_end(s, self.pos as int),
                decreases self.input@.len() - self.pos,
            {
                self.advance();
            }
            let mut value: Vec<u8> = Vec::new();
            let mut i: usize = start;
            while i < self.pos
                invariant
                    start <= i <= self.pos <= self.input@.len(),
                    value@ == self.input@.subrange(start as int, i as int),
                decreases self.pos - i,
            {
                value.push(self.input[i]);
                i += 1;
                assert(value@ =~= self.input@.subrange(start as int, i as int));
            }
            Ok(Token { kind: TokenKind::Word, value, loc })
        }
    }

    fn unterminated(&self, loc: Location) -> (r: TVErr)
        ensures
            r.spec_kind() == ErrKind::UnterminatedText,
    {
        let mut m: Vec<u8> = Vec::new();
        push_str(&mut m, "unterminated text at ");
        push_decimal(&mut m, loc.line);
        push_str(&mut m, ":");
        push_decimal(&mut m, loc.column);
        let e = TVErr::origin(ErrKind::UnterminatedText, "the input ends inside a text");
        TVErr::wrap_bytes(e, m)
    }
}

} // verus!
