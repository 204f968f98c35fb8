//! Laws of the lexer, stated over the scan model that [`crate::lexer::Lexer::scan`]
//! realizes: every executable scan returns exactly what [`crate::lexer::scan_spec`]
//! says of the lexer's state, so each law below holds of the executable
//! lexer as well.

use vstd::prelude::*;

use crate::lexer::{
    dec_val, is_digit, is_word_char, is_word_start, is_ws, lemma_digit_run_to, lemma_skip_ws_to,
    lemma_word_run_to, scan_spec, sentinel, LexState, Scanned,
};
use crate::token::{Tag, TokenView};

verus! {

/// For a source holding only whitespace around a single identifier that
/// the reserved table does not know, the first scan yields exactly that
/// identifier as a word token tagged as an identifier, and the scan
/// after it yields the end of the stream.
pub proof fn lemma_single_identifier(
    ws1: Seq<char>,
    id: Seq<char>,
    ws2: Seq<char>,
    table: Map<Seq<char>, Tag>,
)
    requires
        forall|k: int| 0 <= k < ws1.len() ==> is_ws(ws1[k]),
        forall|k: int| 0 <= k < ws2.len() ==> is_ws(ws2[k]),
        id.len() >= 1,
        is_word_start(id[0]),
        forall|k: int| 0 <= k < id.len() ==> is_word_char(id[k]),
        !table.contains_key(id),
    ensures
        ({
            let s = LexState { src: ws1 + id + ws2 + seq![sentinel()], pos: 0, line: 1, table };
            let (s1, item1) = scan_spec(s);
            let (s2, item2) = scan_spec(s1);
            &&& item1 == Scanned::Tok(TokenView::Word { tag: Tag::Id, lexeme: id })
            &&& item2 == Scanned::End
        }),
{
    let src = ws1 + id + ws2 + seq![sentinel()];
    let s = LexState { src, pos: 0, line: 1, table };
    let a = ws1.len() as int;
    let b = a + id.len();
    let e = b + ws2.len();
    assert(src.len() == e + 1);
    assert(src[e] == sentinel());
    assert(forall|k: int| 0 <= k < a ==> src[k] == ws1[k]);
    assert(forall|k: int| a <= k < b ==> src[k] == id[k - a]);
    assert(forall|k: int| b <= k < e ==> src[k] == ws2[k - b]);
    // The first scan: skip the leading whitespace, then munch the word.
    assert(!is_ws(src[a]));
    lemma_skip_ws_to(src, 0, a as nat, 1);
    let (p, l) = skip_ws_of(s);
    assert(p == a);
    assert(!is_word_char(src[b]));
    lemma_word_run_to(src, a as nat, b as nat);
    assert(src.subrange(a, b) =~= id);
    let (s1, item1) = scan_spec(s);
    assert(item1 == Scanned::Tok(TokenView::Word { tag: Tag::Id, lexeme: id }));
    assert(s1.pos == b);
    assert(s1.src == src);
    // The second scan: skip the trailing whitespace onto the sentinel.
    assert(!is_ws(src[e]));
    lemma_skip_ws_to(src, b as nat, e as nat, s1.line);
    let (s2, item2) = scan_spec(s1);
    assert(item2 == Scanned::End);
}

/// The whitespace-skip part of one scan, named for the proofs here.
spec fn skip_ws_of(s: LexState) -> (nat, nat) {
    crate::lexer::skip_ws(s.src, s.pos, s.line)
}

/// An integer literal with no decimal point, whose value the 32-bit
/// range holds, scans to an integer token with the literal's exact
/// decimal value.
pub proof fn lemma_integer_literal(digits: Seq<char>, table: Map<Seq<char>, Tag>)
    requires
        digits.len() >= 1,
        forall|k: int| 0 <= k < digits.len() ==> is_digit(digits[k]),
        dec_val(digits) <= i32::MAX,
    ensures
        ({
            let s = LexState { src: digits + seq![sentinel()], pos: 0, line: 1, table };
            scan_spec(s).1 == Scanned::Tok(TokenView::I32 { num: dec_val(digits) as int })
        }),
{
    let src = digits + seq![sentinel()];
    let s = LexState { src, pos: 0, line: 1, table };
    let n = digits.len() as int;
    assert(forall|k: int| 0 <= k < n ==> src[k] == digits[k]);
    assert(src[n] == sentinel());
    assert(!is_ws(src[0]));
    lemma_skip_ws_to(src, 0, 0, 1);
    assert(is_digit(src[0]));
    assert(!is_digit(src[n]));
    lemma_digit_run_to(src, 0, n as nat);
    assert(src[n] != '.');
    assert(src.subrange(0, n) =~= digits);
}

/// A literal with exactly one decimal point and a nonzero digit after
/// it scans to a floating-point-literal token that carries the
/// literal's exact source text.
pub proof fn lemma_float_literal(whole: Seq<char>, frac: Seq<char>, table: Map<Seq<char>, Tag>)
    requires
        whole.len() >= 1,
        forall|k: int| 0 <= k < whole.len() ==> is_digit(whole[k]),
        frac.len() >= 1,
        forall|k: int| 0 <= k < frac.len() ==> is_digit(frac[k]),
        exists|k: int| 0 <= k < frac.len() && frac[k] != '0',
    ensures
        ({
            let lit = whole + seq!['.'] + frac;
            let s = LexState { src: lit + seq![sentinel()], pos: 0, line: 1, table };
            scan_spec(s).1 == Scanned::Tok(TokenView::F32 { text: lit })
        }),
{
    let lit = whole + seq!['.'] + frac;
    let src = lit + seq![sentinel()];
    let s = LexState { src, pos: 0, line: 1, table };
    let a = whole.len() as int;
    let e = a + 1 + frac.len();
    assert(forall|k: int| 0 <= k < a ==> src[k] == whole[k]);
    assert(src[a] == '.');
    assert(forall|k: int| a + 1 <= k < e ==> src[k] == frac[k - a - 1]);
    assert(src[e] == sentinel());
    assert(!is_ws(src[0]));
    lemma_skip_ws_to(src, 0, 0, 1);
    assert(is_digit(src[0]));
    assert(!is_digit(src[a]));
    lemma_digit_run_to(src, 0, whole.len());
    assert(!is_digit(src[e]));
    lemma_digit_run_to(src, (a + 1) as nat, e as nat);
    let k = choose|k: int| 0 <= k < frac.len() && frac[k] != '0';
    assert(a + 1 <= a + 1 + k < e && src[a + 1 + k] != '0');
    assert(src.subrange(0, e) =~= lit);
}

/// Round trip through the reserved table: after a word is reserved
/// under a tag, scanning source text equal to that exact lexeme yields
/// a token carrying the reserved tag, not a fresh identifier tag.
pub proof fn lemma_reserve_round_trip(tag: Tag, lexeme: Seq<char>, table: Map<Seq<char>, Tag>)
    requires
        lexeme.len() >= 1,
        is_word_start(lexeme[0]),
        forall|k: int| 0 <= k < lexeme.len() ==> is_word_char(lexeme[k]),
    ensures
        ({
            let s = LexState {
                src: lexeme + seq![sentinel()],
                pos: 0,
                line: 1,
                table: table.insert(lexeme, tag),
            };
            scan_spec(s).1 == Scanned::Tok(TokenView::Word { tag, lexeme })
        }),
{
    let src = lexeme + seq![sentinel()];
    let n = lexeme.len() as int;
    assert(forall|k: int| 0 <= k < n ==> src[k] == lexeme[k]);
    assert(src[n] == sentinel());
    assert(!is_ws(src[0]));
    lemma_skip_ws_to(src, 0, 0, 1);
    assert(!is_word_char(src[n]));
    lemma_word_run_to(src, 0, n as nat);
    assert(src.subrange(0, n) =~= lexeme);
    assert(table.insert(lexeme, tag).contains_key(lexeme));
}

} // verus!
