//! The lexer: turns a source string into tokens, one `scan` call at a
//! time, under maximal munch. It owns a mutable reserved-word table that
//! classifies known words and memoizes identifiers the first time they
//! are seen.
//!
//! The source text is held with a sentinel terminator `'@'` appended;
//! reaching the sentinel ends the stream. A character that fits no
//! lexical class is a fatal lexical error, reported with the current
//! line number.

use vstd::prelude::*;
use vstd::string::*;

use crate::assoc::{kv_map, lemma_kv_map_contains, lemma_kv_map_index, lemma_kv_map_push};
use crate::token::{Tag, Token, TokenView};

verus! {

// ---------------------------------------------------------------------
// Character classes
// ---------------------------------------------------------------------
/// Space or tab: skipped without touching the line counter.
pub open spec fn is_blank(c: char) -> bool {
    c == ' ' || c == '\t'
}

/// Newline: skipped, advancing the line counter.
pub open spec fn is_newline(c: char) -> bool {
    c == '\n'
}

/// Any skipped whitespace character.
pub open spec fn is_ws(c: char) -> bool {
    is_blank(c) || is_newline(c)
}

/// A decimal digit.
pub open spec fn is_digit(c: char) -> bool {
    '0' <= c && c <= '9'
}

/// An ASCII letter.
pub open spec fn is_letter(c: char) -> bool {
    ('a' <= c && c <= 'z') || ('A' <= c && c <= 'Z')
}

/// A character that may open a word: a letter or an underscore.
pub open spec fn is_word_start(c: char) -> bool {
    is_letter(c) || c == '_'
}

/// A character that may continue a word.
pub open spec fn is_word_char(c: char) -> bool {
    is_word_start(c) || is_digit(c)
}

/// A one-character symbol recognized on its own.
pub open spec fn is_single_mark(c: char) -> bool {
    c == '<' || c == '>' || c == '{' || c == '}' || c == ';'
}

/// A character that opens a two-character comparison when `'='` follows.
pub open spec fn is_cmp_start(c: char) -> bool {
    c == '<' || c == '>' || c == '=' || c == '!'
}

/// The sentinel terminator appended to the source text.
pub open spec fn sentinel() -> char {
    '@'
}

// ---------------------------------------------------------------------
// The mathematical state of a lexer
// ---------------------------------------------------------------------
/// The mathematical state of a [`Lexer`]: the source text with the
/// sentinel appended, the cursor, the current line, and the map the
/// reserved-word table denotes.
pub struct LexState {
    pub src: Seq<char>,
    pub pos: nat,
    pub line: nat,
    pub table: Map<Seq<char>, Tag>,
}

/// A well-formed lexer state: the sentinel closes the source, the cursor
/// is in bounds, and the line counter leaves room to grow once per
/// remaining character.
pub open spec fn lex_wf(s: LexState) -> bool {
    &&& s.src.len() >= 1
    &&& s.src.len() <= usize::MAX
    &&& s.src.last() == sentinel()
    &&& s.pos < s.src.len()
    &&& s.line >= 1
    &&& s.line + (s.src.len() - s.pos) <= usize::MAX + 1
}

/// What one scan yields: the end of the stream, a token, or a fatal
/// lexical error at a line.
pub enum Scanned {
    End,
    Tok(TokenView),
    Fault { line: nat, ch: char },
}

// ---------------------------------------------------------------------
// Whitespace and runs
// ---------------------------------------------------------------------
/// Cursor and line counter after skipping whitespace from `pos`.
pub open spec fn skip_ws(src: Seq<char>, pos: nat, line: nat) -> (nat, nat)
    decreases src.len() - pos,
{
    if pos < src.len() && is_ws(src[pos as int]) {
        skip_ws(
            src,
            pos + 1,
            if is_newline(src[pos as int]) {
                line + 1
            } else {
                line
            },
        )
    } else {
        (pos, line)
    }
}

/// The end of the maximal run of word characters from `pos`.
pub open spec fn word_run_end(src: Seq<char>, pos: nat) -> nat
    decreases src.len() - pos,
{
    if pos < src.len() && is_word_char(src[pos as int]) {
        word_run_end(src, pos + 1)
    } else {
        pos
    }
}

/// The end of the maximal run of digits from `pos`.
pub open spec fn digit_run_end(src: Seq<char>, pos: nat) -> nat
    decreases src.len() - pos,
{
    if pos < src.len() && is_digit(src[pos as int]) {
        digit_run_end(src, pos + 1)
    } else {
        pos
    }
}

/// What a word run looks like: it stays in bounds, consists of word
/// characters, and stops at the first character that is none.
pub proof fn lemma_word_run_end(src: Seq<char>, pos: nat)
    requires
        pos <= src.len(),
    ensures
        pos <= word_run_end(src, pos) <= src.len(),
        forall|k: int| pos <= k < word_run_end(src, pos) ==> is_word_char(src[k]),
        word_run_end(src, pos) < src.len() ==> !is_word_char(
            src[word_run_end(src, pos) as int],
        ),
    decreases src.len() - pos,
{
    if pos < src.len() && is_word_char(src[pos as int]) {
        lemma_word_run_end(src, pos + 1);
    }
}

/// What a digit run looks like: it stays in bounds, consists of digits,
/// and stops at the first character that is none.
pub proof fn lemma_digit_run_end(src: Seq<char>, pos: nat)
    requires
        pos <= src.len(),
    ensures
        pos <= digit_run_end(src, pos) <= src.len(),
        forall|k: int| pos <= k < digit_run_end(src, pos) ==> is_digit(src[k]),
        digit_run_end(src, pos) < src.len() ==> !is_digit(src[digit_run_end(src, pos) as int]),
    decreases src.len() - pos,
{
    if pos < src.len() && is_digit(src[pos as int]) {
        lemma_digit_run_end(src, pos + 1);
    }
}

/// What skipping whitespace looks like: the cursor moves over whitespace
/// only, stops at the first non-whitespace character, and the line
/// counter grows by at most one per skipped character.
pub proof fn lemma_skip_ws(src: Seq<char>, pos: nat, line: nat)
    requires
        pos <= src.len(),
    ensures
        pos <= skip_ws(src, pos, line).0 <= src.len(),
        forall|k: int| pos <= k < skip_ws(src, pos, line).0 ==> is_ws(src[k]),
        skip_ws(src, pos, line).0 < src.len() ==> !is_ws(
            src[skip_ws(src, pos, line).0 as int],
        ),
        line <= skip_ws(src, pos, line).1,
        skip_ws(src, pos, line).1 - line <= skip_ws(src, pos, line).0 - pos,
    decreases src.len() - pos,
{
    if pos < src.len() && is_ws(src[pos as int]) {
        if is_newline(src[pos as int]) {
            lemma_skip_ws(src, pos + 1, line + 1);
        } else {
            lemma_skip_ws(src, pos + 1, line);
        }
    }
}

// ---------------------------------------------------------------------
// Numeric literals
// ---------------------------------------------------------------------
/// The value of one decimal digit.
pub open spec fn digit_val(c: char) -> nat {
    (c as int - '0' as int) as nat
}

/// The value of a sequence of decimal digits.
pub open spec fn dec_val(digits: Seq<char>) -> nat
    decreases digits.len(),
{
    if digits.len() == 0 {
        0
    } else {
        dec_val(digits.drop_last()) * 10 + digit_val(digits.last())
    }
}

/// A digit sequence read as a 32-bit integer, saturating at the largest
/// representable value.
pub open spec fn dec_val_i32(digits: Seq<char>) -> int {
    if dec_val(digits) > i32::MAX {
        i32::MAX as int
    } else {
        dec_val(digits) as int
    }
}

/// Where the numeric literal starting at `pos` ends: the digit run, and,
/// when a decimal point follows it, the point and the digit run after it.
pub open spec fn num_end(src: Seq<char>, pos: nat) -> nat {
    let whole = digit_run_end(src, pos);
    if whole < src.len() && src[whole as int] == '.' {
        digit_run_end(src, whole + 1)
    } else {
        whole
    }
}

/// Whether the literal starting at `pos` has a fractional remainder:
/// a decimal point followed by at least one nonzero digit. Only such a
/// literal is a floating-point literal; all others are integers.
pub open spec fn num_is_float(src: Seq<char>, pos: nat) -> bool {
    let whole = digit_run_end(src, pos);
    &&& whole < src.len() && src[whole as int] == '.'
    &&& exists|k: int| whole + 1 <= k < num_end(src, pos) && src[k] != '0'
}

/// The token a numeric literal at `pos` denotes: the literal's text for
/// a floating-point literal, its saturated value for an integer.
pub open spec fn num_token(src: Seq<char>, pos: nat) -> TokenView {
    if num_is_float(src, pos) {
        TokenView::F32 { text: src.subrange(pos as int, num_end(src, pos) as int) }
    } else {
        TokenView::I32 {
            num: dec_val_i32(src.subrange(pos as int, digit_run_end(src, pos) as int)),
        }
    }
}

// ---------------------------------------------------------------------
// One scan, as a function of the state
// ---------------------------------------------------------------------
/// Looking a scanned word up in the reserved table: a hit returns the
/// stored classification; a miss classifies the word as a fresh
/// identifier and registers it.
pub open spec fn lookup_word(s: LexState, w: Seq<char>) -> (LexState, Scanned) {
    if s.table.contains_key(w) {
        (s, Scanned::Tok(TokenView::Word { tag: s.table[w], lexeme: w }))
    } else {
        (
            LexState { table: s.table.insert(w, Tag::Id), ..s },
            Scanned::Tok(TokenView::Word { tag: Tag::Id, lexeme: w }),
        )
    }
}

/// One scan under maximal munch: skip whitespace; the sentinel ends the
/// stream; a digit opens a numeric literal; a comparison followed by
/// `'='` beats a one-character symbol; a letter or underscore opens a
/// word, classified through the reserved table; anything else is a
/// fatal lexical error naming the line and the character.
pub open spec fn scan_spec(s: LexState) -> (LexState, Scanned) {
    let (p, l) = skip_ws(s.src, s.pos, s.line);
    let s1 = LexState { pos: p, line: l, ..s };
    if p >= s.src.len() {
        (s1, Scanned::End)
    } else {
        let c = s.src[p as int];
        if c == sentinel() {
            (s1, Scanned::End)
        } else if is_digit(c) {
            (
                LexState { pos: num_end(s.src, p), ..s1 },
                Scanned::Tok(num_token(s.src, p)),
            )
        } else if is_cmp_start(c) && p + 1 < s.src.len() && s.src[p + 1int] == '=' {
            lookup_word(
                LexState { pos: p + 2, ..s1 },
                s.src.subrange(p as int, p + 2int),
            )
        } else if is_single_mark(c) {
            lookup_word(LexState { pos: p + 1, ..s1 }, seq![c])
        } else if is_word_start(c) {
            lookup_word(
                LexState { pos: word_run_end(s.src, p), ..s1 },
                s.src.subrange(p as int, word_run_end(s.src, p) as int),
            )
        } else {
            (s1, Scanned::Fault { line: l, ch: c })
        }
    }
}

/// How an executable scan result realizes a [`Scanned`] item.
pub open spec fn scanned_as(r: Result<Option<Token>, LexError>, item: Scanned) -> bool {
    match item {
        Scanned::End => r == Result::<Option<Token>, LexError>::Ok(Option::<Token>::None),
        Scanned::Tok(tv) => r is Ok && r.unwrap() is Some && r.unwrap().unwrap()@ == tv,
        Scanned::Fault { line, ch } => r is Err && r.unwrap_err().line == line
            && r.unwrap_err().ch == ch,
    }
}

/// A fatal lexical error: the offending character and the line it
/// stands on.
#[derive(Debug, Clone, Copy, PartialEq, Eq, Structural)]
pub struct LexError {
    pub line: usize,
    pub ch: char,
}

// ---------------------------------------------------------------------
// The default reserved table
// ---------------------------------------------------------------------
/// The table a fresh lexer starts with: the literal keywords, the
/// comparison operators, and the structural symbols.
pub open spec fn default_table() -> Map<Seq<char>, Tag> {
    Map::<Seq<char>, Tag>::empty().insert("true"@, Tag::Primary).insert("false"@, Tag::Primary)
        .insert("<"@, Tag::Comparison).insert(">"@, Tag::Comparison).insert(
        "<="@,
        Tag::Comparison,
    ).insert(">="@, Tag::Comparison).insert("=="@, Tag::Comparison).insert(
        "!="@,
        Tag::Comparison,
    ).insert("{"@, Tag::Symbol).insert("}"@, Tag::Symbol).insert(";"@, Tag::Symbol)
}

// ---------------------------------------------------------------------
// The executable lexer
// ---------------------------------------------------------------------
/// The text a stored table token is keyed by.
spec fn word_key(t: Token) -> Seq<char> {
    match t {
        Token::Word { lexeme, .. } => lexeme@,
        _ => Seq::empty(),
    }
}

/// The classification a stored table token carries.
spec fn word_tag_of(t: Token) -> Tag {
    match t {
        Token::Word { tag, .. } => tag,
        _ => Tag::Nothing,
    }
}

/// The reserved table as an association sequence.
spec fn table_entries(toks: Seq<Token>) -> Seq<(Seq<char>, Tag)> {
    toks.map_values(|t: Token| (word_key(t), word_tag_of(t)))
}

/// The lexer: the source text (with the sentinel appended), a cursor,
/// a line counter starting at 1, and the reserved-word table, stored as
/// word tokens of which the latest entry for a lexeme wins.
pub struct Lexer {
    line: usize,
    nowon: usize,
    program: String,
    match_table: Vec<Token>,
}

impl View for Lexer {
    type V = LexState;

    closed spec fn view(&self) -> LexState {
        LexState {
            src: self.program@,
            pos: self.nowon as nat,
            line: self.line as nat,
            table: kv_map(table_entries(self.match_table@)),
        }
    }
}

impl Lexer {
    /// The reserved table holds word tokens only.
    pub closed spec fn table_ok(&self) -> bool {
        forall|i: int| 0 <= i < self.match_table@.len() ==> self.match_table@[i] is Word
    }

    /// A well-formed lexer: its state is well-formed and the table holds
    /// word tokens only.
    pub open spec fn wf(&self) -> bool {
        &&& lex_wf(self@)
        &&& self.table_ok()
    }

    /// A fresh lexer over a source string: the sentinel is appended, the
    /// cursor sits at the start, the line counter at 1, and the reserved
    /// table holds the default classifications.
    pub fn new(program: String) -> (l: Lexer)
        ensures
            l.wf(),
            l@ == (LexState {
                src: program@ + seq![sentinel()],
                pos: 0,
                line: 1,
                table: default_table(),
            }),
    {
        let ghost program_view = program@;
        let mut src = program;
        src.append("@");
        let _n = src.as_str().unicode_len();
        proof {
            reveal_strlit("@");
            assert("@"@ =~= seq!['@']);
            assert(src@ =~= program_view + seq![sentinel()]);
            assert(src@.len() <= usize::MAX);
            assert(src@.last() == sentinel());
        }
        let mut l = Lexer { line: 1, nowon: 0, program: src, match_table: Vec::new() };
        proof {
            assert(table_entries(l.match_table@) =~= Seq::<(Seq<char>, Tag)>::empty());
        }
        l.reserve(Token::new_word(Tag::Primary, "true"));
        l.reserve(Token::new_word(Tag::Primary, "false"));
        l.reserve(Token::new_word(Tag::Comparison, "<"));
        l.reserve(Token::new_word(Tag::Comparison, ">"));
        l.reserve(Token::new_word(Tag::Comparison, "<="));
        l.reserve(Token::new_word(Tag::Comparison, ">="));
        l.reserve(Token::new_word(Tag::Comparison, "=="));
        l.reserve(Token::new_word(Tag::Comparison, "!="));
        l.reserve(Token::new_word(Tag::Symbol, "{"));
        l.reserve(Token::new_word(Tag::Symbol, "}"));
        l.reserve(Token::new_word(Tag::Symbol, ";"));
        l
    }

    /// Put a word token into the reserved table under its own lexeme,
    /// overwriting any earlier entry for that lexeme; tokens that are
    /// not words are ignored.
    pub fn reserve(&mut self, token: Token)
        requires
            old(self).wf(),
        ensures
            final(self).wf(),
            match token@ {
                TokenView::Word { tag, lexeme } => final(self)@ == (LexState {
                    table: old(self)@.table.insert(lexeme, tag),
                    ..old(self)@
                }),
                _ => final(self)@ == old(self)@,
            },
    {
        match &token {
            Token::Word { .. } => {
                proof {
                    assert(table_entries(self.match_table@.push(token)) =~= table_entries(
                        self.match_table@,
                    ).push((word_key(token), word_tag_of(token))));
                    lemma_kv_map_push(
                        table_entries(self.match_table@),
                        word_key(token),
                        word_tag_of(token),
                    );
                }
                self.match_table.push(token);
            },
            _ => {},
        }
    }

    /// Advance the cursor over spaces, tabs and newlines, counting each
    /// newline into the line counter.
    fn skip_space(&mut self)
        requires
            old(self).wf(),
        ensures
            final(self).wf(),
            final(self)@.src == old(self)@.src,
            final(self)@.table == old(self)@.table,
            (final(self)@.pos, final(self)@.line) == skip_ws(
                old(self)@.src,
                old(self)@.pos,
                old(self)@.line,
            ),
            final(self)@.pos < final(self)@.src.len(),
            !is_ws(final(self)@.src[final(self)@.pos as int]),
    {
        let ghost s0 = *self;
        loop
            invariant
                self.wf(),
                self@.src == s0@.src,
                self@.table == s0@.table,
                skip_ws(self@.src, self@.pos, self@.line) == skip_ws(s0@.src, s0@.pos, s0@.line),
            ensures
                self.wf(),
                self@.src == s0@.src,
                self@.table == s0@.table,
                (self@.pos, self@.line) == skip_ws(s0@.src, s0@.pos, s0@.line),
                !is_ws(self@.src[self@.pos as int]),
            decreases self@.src.len() - self@.pos,
        {
            let c = self.program.as_str().get_char(self.nowon);
            if c == ' ' || c == '\t' {
                self.nowon = self.nowon + 1;
            } else if c == '\n' {
                proof {
                    assert(self@.src[self@.src.len() - 1] == sentinel());
                    assert(self@.pos != self@.src.len() - 1);
                }
                self.line = self.line + 1;
                self.nowon = self.nowon + 1;
            } else {
                proof {
                    assert(skip_ws(self@.src, self@.pos, self@.line) == (self@.pos, self@.line));
                }
                break;
            }
        }
    }

    /// Read the maximal run of word characters at the cursor and hand
    /// its text back, advancing the cursor past it.
    fn consume_word(&mut self) -> (w: String)
        requires
            old(self).wf(),
        ensures
            final(self).wf(),
            final(self)@ == (LexState {
                pos: word_run_end(old(self)@.src, old(self)@.pos),
                ..old(self)@
            }),
            w@ == old(self)@.src.subrange(
                old(self)@.pos as int,
                word_run_end(old(self)@.src, old(self)@.pos) as int,
            ),
    {
        let ghost s0 = *self;
        let start = self.nowon;
        loop
            invariant
                self.wf(),
                self@.src == s0@.src,
                self@.table == s0@.table,
                self@.line == s0@.line,
                s0@.pos <= self@.pos,
                start == s0@.pos,
                word_run_end(self@.src, self@.pos) == word_run_end(s0@.src, s0@.pos),
            ensures
                self.wf(),
                self@.src == s0@.src,
                self@.table == s0@.table,
                self@.line == s0@.line,
                start == s0@.pos,
                self@.pos == word_run_end(s0@.src, s0@.pos),
            decreases self@.src.len() - self@.pos,
        {
            let c = self.program.as_str().get_char(self.nowon);
            let word_char = (c >= 'a' && c <= 'z') || (c >= 'A' && c <= 'Z') || c == '_' || (c
                >= '0' && c <= '9');
            if word_char {
                proof {
                    assert(self@.src[self@.src.len() - 1] == sentinel());
                    assert(self@.pos != self@.src.len() - 1);
                }
                self.nowon = self.nowon + 1;
            } else {
                proof {
                    assert(word_run_end(self@.src, self@.pos) == self@.pos);
                }
                break;
            }
        }
        proof {
            lemma_word_run_end(s0@.src, s0@.pos);
        }
        let w = self.program.as_str().substring_char(start, self.nowon).to_owned();
        w
    }

    /// Try to read a symbol or operator at the cursor under maximal
    /// munch: a comparison followed by `'='` makes a two-character
    /// operator; otherwise one of the single-character symbols; other
    /// characters are left for the caller.
    fn consume_mark(&mut self) -> (r: Option<String>)
        requires
            old(self).wf(),
            old(self)@.src[old(self)@.pos as int] != sentinel(),
        ensures
            final(self).wf(),
            final(self)@.src == old(self)@.src,
            final(self)@.table == old(self)@.table,
            final(self)@.line == old(self)@.line,
            ({
                let s = old(self)@;
                let c = s.src[s.pos as int];
                if is_cmp_start(c) && s.pos + 1 < s.src.len() && s.src[s.pos + 1 as int] == '=' {
                    r is Some && r.unwrap()@ == s.src.subrange(s.pos as int, s.pos + 2int)
                        && final(self)@.pos == s.pos + 2
                } else if is_single_mark(c) {
                    r is Some && r.unwrap()@ == seq![c] && final(self)@.pos == s.pos + 1
                } else {
                    r is None && final(self)@.pos == s.pos
                }
            }),
    {
        proof {
            assert(self@.src[self@.src.len() - 1] == sentinel());
            assert(self@.pos != self@.src.len() - 1);
        }
        let c = self.program.as_str().get_char(self.nowon);
        let n = self.program.as_str().get_char(self.nowon + 1);
        let ghost s = self@;
        if n == '=' && (c == '>' || c == '<' || c == '=' || c == '!') {
            proof {
                assert(s.src[s.pos + 1 as int] != sentinel());
                assert(s.pos + 1 != s.src.len() - 1);
            }
            let w: &str = if c == '>' {
                ">="
            } else if c == '<' {
                "<="
            } else if c == '=' {
                "=="
            } else {
                "!="
            };
            proof {
                reveal_strlit(">=");
                reveal_strlit("<=");
                reveal_strlit("==");
                reveal_strlit("!=");
                assert(s.src.subrange(s.pos as int, s.pos + 2int) =~= seq![c, '=']);
                assert(w@ =~= seq![c, '=']);
            }
            self.nowon = self.nowon + 2;
            return Some(w.to_owned());
        }
        if c == '>' || c == '<' || c == '{' || c == '}' || c == ';' {
            let w: &str = if c == '>' {
                ">"
            } else if c == '<' {
                "<"
            } else if c == '{' {
                "{"
            } else if c == '}' {
                "}"
            } else {
                ";"
            };
            proof {
                reveal_strlit(">");
                reveal_strlit("<");
                reveal_strlit("{");
                reveal_strlit("}");
                reveal_strlit(";");
                assert(w@ =~= seq![c]);
            }
            self.nowon = self.nowon + 1;
            return Some(w.to_owned());
        }
        None
    }

    /// Classify a scanned word through the reserved table: a hit hands
    /// back the stored token; a miss makes a fresh identifier token and
    /// registers it, so later occurrences of the word short-circuit.
    fn lookup_or_register(&mut self, w: String) -> (t: Token)
        requires
            old(self).wf(),
        ensures
            final(self).wf(),
            ({
                let (s2, item) = lookup_word(old(self)@, w@);
                final(self)@ == s2 && item == Scanned::Tok(t@)
            }),
    {
        let ghost entries = table_entries(self.match_table@);
        let v = &self.match_table;
        let mut i = v.len();
        loop
            invariant
                self.wf(),
                v == &self.match_table,
                entries == table_entries(self.match_table@),
                i <= v.len(),
                forall|j: int| i <= j < entries.len() ==> entries[j].0 != w@,
            ensures
                self.wf(),
                v == &self.match_table,
                forall|j: int| 0 <= j < entries.len() ==> entries[j].0 != w@,
            decreases i,
        {
            if i == 0 {
                break;
            }
            i = i - 1;
            let hit = match &v[i] {
                Token::Word { lexeme, .. } => *lexeme == w,
                _ => false,
            };
            if hit {
                proof {
                    assert(entries[i as int].0 == w@);
                    assert forall|j: int| i < j < entries.len() implies entries[j].0 != w@ by {}
                    lemma_kv_map_index(entries, w@, i as int);
                }
                return v[i].clone();
            }
        }
        proof {
            lemma_kv_map_contains(entries, w@);
            assert(!self@.table.contains_key(w@));
        }
        let nt = Token::Word { tag: Tag::Id, lexeme: w };
        let copy = nt.clone();
        proof {
            assert(table_entries(self.match_table@.push(copy)) =~= table_entries(
                self.match_table@,
            ).push((word_key(copy), word_tag_of(copy))));
            lemma_kv_map_push(table_entries(self.match_table@), word_key(copy), word_tag_of(copy));
        }
        self.match_table.push(copy);
        nt
    }

    /// Read the numeric literal at the cursor: the digit run and, when a
    /// decimal point follows it, the point and the digit run after it.
    /// The literal is a floating-point literal only when a nonzero digit
    /// stands after the point; otherwise it is an integer, whose value
    /// saturates at the largest 32-bit value.
    fn consume_num(&mut self) -> (t: Token)
        requires
            old(self).wf(),
            is_digit(old(self)@.src[old(self)@.pos as int]),
        ensures
            final(self).wf(),
            final(self)@ == (LexState {
                pos: num_end(old(self)@.src, old(self)@.pos),
                ..old(self)@
            }),
            t@ == num_token(old(self)@.src, old(self)@.pos),
    {
        let ghost s0 = *self;
        let start = self.nowon;
        let mut val: u64 = 0;
        loop
            invariant
                self.wf(),
                self@.src == s0@.src,
                self@.table == s0@.table,
                self@.line == s0@.line,
                start == s0@.pos,
                s0@.pos <= self@.pos,
                digit_run_end(self@.src, self@.pos) == digit_run_end(s0@.src, s0@.pos),
                val <= i32::MAX,
                val as nat == sat_i32(dec_val(s0@.src.subrange(start as int, self@.pos as int))),
            ensures
                self.wf(),
                self@.src == s0@.src,
                self@.table == s0@.table,
                self@.line == s0@.line,
                self@.pos == digit_run_end(s0@.src, s0@.pos),
                val <= i32::MAX,
                val as nat == sat_i32(dec_val(s0@.src.subrange(start as int, self@.pos as int))),
            decreases self@.src.len() - self@.pos,
        {
            let c = self.program.as_str().get_char(self.nowon);
            if c >= '0' && c <= '9' {
                proof {
                    assert(self@.src[self@.src.len() - 1] == sentinel());
                    assert(self@.pos != self@.src.len() - 1);
                    assert(s0@.src.subrange(start as int, self@.pos + 1int).drop_last()
                        =~= s0@.src.subrange(start as int, self@.pos as int));
                }
                let d = (c as u32) - ('0' as u32);
                val = val * 10 + (d as u64);
                if val > 2147483647 {
                    val = 2147483647;
                }
                self.nowon = self.nowon + 1;
            } else {
                proof {
                    assert(digit_run_end(self@.src, self@.pos) == self@.pos);
                }
                break;
            }
        }
        let whole_end = self.nowon;
        let c = self.program.as_str().get_char(self.nowon);
        let mut is_float = false;
        if c == '.' {
            proof {
                assert(self@.src[self@.src.len() - 1] == sentinel());
                assert(self@.pos != self@.src.len() - 1);
            }
            self.nowon = self.nowon + 1;
            let ghost frac_start = self@.pos;
            loop
                invariant
                    self.wf(),
                    self@.src == s0@.src,
                    self@.table == s0@.table,
                    self@.line == s0@.line,
                    frac_start == whole_end + 1,
                    frac_start <= self@.pos,
                    digit_run_end(self@.src, self@.pos) == digit_run_end(s0@.src, frac_start),
                    is_float == (exists|k: int|
                        frac_start <= k < self@.pos && s0@.src[k] != '0'),
                ensures
                    self.wf(),
                    self@.src == s0@.src,
                    self@.table == s0@.table,
                    self@.line == s0@.line,
                    self@.pos == digit_run_end(s0@.src, frac_start),
                    is_float == (exists|k: int|
                        frac_start <= k < self@.pos && s0@.src[k] != '0'),
                decreases self@.src.len() - self@.pos,
            {
                let c = self.program.as_str().get_char(self.nowon);
                if c >= '0' && c <= '9' {
                    proof {
                        assert(self@.src[self@.src.len() - 1] == sentinel());
                        assert(self@.pos != self@.src.len() - 1);
                    }
                    let ghost p = self@.pos;
                    if c != '0' {
                        is_float = true;
                    }
                    self.nowon = self.nowon + 1;
                    proof {
                        if s0@.src[p as int] != '0' {
                            assert(frac_start <= p < self@.pos && s0@.src[p as int] != '0');
                        } else {
                            if exists|k: int| frac_start <= k < self@.pos && s0@.src[k] != '0' {
                                let k = choose|k: int|
                                    frac_start <= k < self@.pos && s0@.src[k] != '0';
                                assert(frac_start <= k < p && s0@.src[k] != '0');
                            }
                        }
                    }
                } else {
                    proof {
                        assert(digit_run_end(self@.src, self@.pos) == self@.pos);
                    }
                    break;
                }
            }
        }
        proof {
            lemma_digit_run_end(s0@.src, s0@.pos);
        }
        if is_float {
            let text = self.program.as_str().substring_char(start, self.nowon).to_owned();
            proof {
                assert(num_is_float(s0@.src, s0@.pos));
            }
            Token::NumF32 { text }
        } else {
            proof {
                assert(!num_is_float(s0@.src, s0@.pos));
            }
            Token::NumI32 { num: val as i32 }
        }
    }

    /// Scan one lexical unit and hand it back, advancing the cursor:
    /// nothing at the end of the stream, a token otherwise, or a fatal
    /// lexical error naming the line and the character that fits no
    /// class. The call realizes exactly one step of [`scan_spec`].
    pub fn scan(&mut self) -> (r: Result<Option<Token>, LexError>)
        requires
            old(self).wf(),
        ensures
            final(self).wf(),
            final(self)@ == scan_spec(old(self)@).0,
            scanned_as(r, scan_spec(old(self)@).1),
    {
        let ghost s0 = old(self)@;
        self.skip_space();
        let ghost s1 = self@;
        proof {
            assert(s1 == (LexState {
                pos: skip_ws(s0.src, s0.pos, s0.line).0,
                line: skip_ws(s0.src, s0.pos, s0.line).1,
                ..s0
            }));
        }
        let c = self.program.as_str().get_char(self.nowon);
        if c == '@' {
            return Ok(None);
        }
        if c >= '0' && c <= '9' {
            let t = self.consume_num();
            return Ok(Some(t));
        }
        match self.consume_mark() {
            Some(w) => {
                let t = self.lookup_or_register(w);
                Ok(Some(t))
            },
            None => {
                let word_start = (c >= 'a' && c <= 'z') || (c >= 'A' && c <= 'Z') || c == '_';
                if word_start {
                    let w = self.consume_word();
                    let t = self.lookup_or_register(w);
                    Ok(Some(t))
                } else {
                    Err(LexError { line: self.line, ch: c })
                }
            },
        }
    }
}

/// A natural number clipped to the largest 32-bit integer.
spec fn sat_i32(n: nat) -> nat {
    if n > i32::MAX {
        i32::MAX as nat
    } else {
        n
    }
}

/// One scan step keeps the state well-formed, never touches the source,
/// never moves the cursor backward, and moves it strictly forward
/// whenever it yields a token.
pub proof fn lemma_scan_step(s: LexState)
    requires
        lex_wf(s),
    ensures
        lex_wf(scan_spec(s).0),
        scan_spec(s).0.src == s.src,
        s.pos <= scan_spec(s).0.pos,
        scan_spec(s).1 is Tok ==> s.pos < scan_spec(s).0.pos,
{
    let (p, l) = skip_ws(s.src, s.pos, s.line);
    lemma_skip_ws(s.src, s.pos, s.line);
    assert(s.src[s.src.len() - 1] == sentinel());
    assert(p < s.src.len());
    let c = s.src[p as int];
    if c == sentinel() {
    } else if is_digit(c) {
        lemma_digit_run_end(s.src, p);
        let whole = digit_run_end(s.src, p);
        assert(whole < s.src.len());
        if whole < s.src.len() && s.src[whole as int] == '.' {
            lemma_digit_run_end(s.src, whole + 1);
            assert(s.src[whole as int] != sentinel());
            assert(whole < s.src.len() - 1);
            assert(num_end(s.src, p) < s.src.len());
        }
    } else if is_cmp_start(c) && p + 1 < s.src.len() && s.src[p + 1 as int] == '=' {
        assert(s.src[p + 1 as int] != sentinel());
        assert(p + 1 < s.src.len() - 1);
    } else if is_single_mark(c) {
        assert(p < s.src.len() - 1);
    } else if is_word_start(c) {
        lemma_word_run_end(s.src, p);
        assert(word_run_end(s.src, p) < s.src.len());
    } else {
    }
}

/// Whitespace skipping lands exactly on the first position at or after
/// the cursor that does not hold whitespace.
pub proof fn lemma_skip_ws_to(src: Seq<char>, pos: nat, j: nat, line: nat)
    requires
        pos <= j <= src.len(),
        forall|k: int| pos <= k < j ==> is_ws(src[k]),
        j == src.len() || !is_ws(src[j as int]),
    ensures
        skip_ws(src, pos, line).0 == j,
    decreases j - pos,
{
    if pos < j {
        assert(is_ws(src[pos as int]));
        if is_newline(src[pos as int]) {
            lemma_skip_ws_to(src, pos + 1, j, line + 1);
        } else {
            lemma_skip_ws_to(src, pos + 1, j, line);
        }
    }
}

/// A word run over exactly the word characters before `j` ends at `j`.
pub proof fn lemma_word_run_to(src: Seq<char>, pos: nat, j: nat)
    requires
        pos <= j <= src.len(),
        forall|k: int| pos <= k < j ==> is_word_char(src[k]),
        j == src.len() || !is_word_char(src[j as int]),
    ensures
        word_run_end(src, pos) == j,
    decreases j - pos,
{
    if pos < j {
        assert(is_word_char(src[pos as int]));
        lemma_word_run_to(src, pos + 1, j);
    }
}

/// A digit run over exactly the digits before `j` ends at `j`.
pub proof fn lemma_digit_run_to(src: Seq<char>, pos: nat, j: nat)
    requires
        pos <= j <= src.len(),
        forall|k: int| pos <= k < j ==> is_digit(src[k]),
        j == src.len() || !is_digit(src[j as int]),
    ensures
        digit_run_end(src, pos) == j,
    decreases j - pos,
{
    if pos < j {
        assert(is_digit(src[pos as int]));
        lemma_digit_run_to(src, pos + 1, j);
    }
}

} // verus!
