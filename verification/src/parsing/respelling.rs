//! Scanning again what was scanned: the lexemes of the tokens of a text,
//! written one after the other with a space after each, scan to the same
//! tokens.  Only the lines may differ, since line ends between tokens are not
//! written again.

use crate::parsing::scanner::{
    eof_token, is_alpha, is_digit, lemma_piece_ends_later, lemma_run_end, not_digit, not_word,
    piece, quote, run_end, scan, scan_from, token_at, Found, ScanFailure, QUOTE, SPACE,
};
use crate::parsing::tokens::{TokenType, TokenView};
use crate::text::{lemma_ascii_is_bounded, slice_text};
use vstd::prelude::*;
use vstd::utf8::*;

verus! {

/// The lexemes of `ts` as bytes, one after the other, with a space after
/// each.
pub open spec fn respelled(ts: Seq<TokenView>) -> Seq<u8>
    decreases ts.len(),
{
    if ts.len() == 0 {
        Seq::empty()
    } else {
        encode_utf8(ts[0].lexeme) + seq![SPACE] + respelled(ts.drop_first())
    }
}

/// Whether two tokens differ in nothing but their line.
pub open spec fn alike(a: TokenView, b: TokenView) -> bool {
    &&& a.variant == b.variant
    &&& a.lexeme == b.lexeme
    &&& a.string == b.string
    &&& a.number == b.number
}

/// Whether two sequences of tokens differ in nothing but the lines of their
/// tokens.
pub open spec fn all_alike(a: Seq<TokenView>, b: Seq<TokenView>) -> bool {
    &&& a.len() == b.len()
    &&& forall|i: int| 0 <= i < a.len() ==> alike(#[trigger] a[i], b[i])
}

/// Whether `other` holds from `there` on what `src` holds from `here` to
/// `end`.
pub open spec fn same_bytes(src: Seq<u8>, here: int, end: int, other: Seq<u8>, there: int) -> bool {
    &&& 0 <= here <= end <= src.len()
    &&& 0 <= there
    &&& there + (end - here) <= other.len()
    &&& forall|i: int| here <= i < end ==> #[trigger] src[i] == other[there + (i - here)]
}

/// Whether `other` holds from `there` on what `src` holds from `here` to
/// `end`, and a space after it.
pub open spec fn spelled_at(src: Seq<u8>, here: int, end: int, other: Seq<u8>, there: int) -> bool {
    &&& same_bytes(src, here, end, other, there)
    &&& there + (end - here) < other.len()
    &&& other[there + (end - here)] == SPACE
}

/// A run over the same bytes ends at the same distance, where a stopping
/// byte or the end of the text follows those bytes.
proof fn lemma_run_agrees(
    src: Seq<u8>,
    from: int,
    end: int,
    other: Seq<u8>,
    there: int,
    stop: spec_fn(u8) -> bool,
)
    requires
        end == run_end(src, from, stop),
        same_bytes(src, from, end, other, there),
        there + (end - from) < other.len() ==> stop(other[there + (end - from)]),
    ensures
        run_end(other, there, stop) == there + (end - from),
    decreases end - from,
{
    lemma_run_end(src, from, stop);
    if from < end {
        assert(src[from] == other[there + (from - from)]);
        assert(!stop(src[from]));
        assert(same_bytes(src, from + 1, end, other, there + 1)) by {
            assert forall|i: int| from + 1 <= i < end implies #[trigger] src[i] == other[there + 1
                + (i - (from + 1))] by {
                assert(src[i] == other[there + (i - from)]);
            }
        }
        lemma_run_agrees(src, from + 1, end, other, there + 1, stop);
    }
}

/// Part of the same bytes is the same bytes.
proof fn lemma_same_part(src: Seq<u8>, here: int, end: int, other: Seq<u8>, there: int, a: int, b: int)
    requires
        same_bytes(src, here, end, other, there),
        here <= a <= b <= end,
    ensures
        same_bytes(src, a, b, other, there + (a - here)),
{
    assert forall|i: int| a <= i < b implies #[trigger] src[i] == other[there + (a - here) + (i
        - a)] by {
        assert(src[i] == other[there + (i - here)]);
    }
}

/// The text of the same bytes is the same text.
proof fn lemma_same_text(src: Seq<u8>, here: int, end: int, other: Seq<u8>, there: int)
    requires
        same_bytes(src, here, end, other, there),
    ensures
        slice_text(other, there, there + (end - here)) == slice_text(src, here, end),
        other.subrange(there, there + (end - here)) == src.subrange(here, end),
{
    assert forall|k: int| 0 <= k < end - here implies other.subrange(
        there,
        there + (end - here),
    )[k] == src.subrange(here, end)[k] by {
        assert(src[here + k] == other[there + ((here + k) - here)]);
    }
    assert(other.subrange(there, there + (end - here)) =~= src.subrange(here, end));
}

/// A token that is spelled again, with a space after it, is scanned as the
/// same token.
proof fn lemma_token_respelled(
    src: Seq<u8>,
    start: int,
    line: u32,
    other: Seq<u8>,
    there: int,
    line2: u32,
)
    requires
        0 <= start < src.len(),
        piece(src, start, line).found is Token,
        spelled_at(src, start, piece(src, start, line).end, other, there),
    ensures
        piece(other, there, line2).found == piece(src, start, line).found,
        piece(other, there, line2).end == there + (piece(src, start, line).end - start),
        alike(
            token_at(
                src,
                start,
                piece(src, start, line).end,
                piece(src, start, line).found->Token_0,
                piece(src, start, line).line,
            ),
            token_at(
                other,
                there,
                piece(other, there, line2).end,
                piece(other, there, line2).found->Token_0,
                piece(other, there, line2).line,
            ),
        ),
{
    let p = piece(src, start, line);
    let end = p.end;
    let c = src[start];
    lemma_piece_ends_later(src, start, line);
    assert(src[start] == other[there + (start - start)]);
    assert(other[there] == c);
    lemma_same_text(src, start, end, other, there);
    if c == QUOTE {
        let close = run_end(src, start + 1, quote());
        lemma_run_end(src, start + 1, quote());
        assert(end == close + 1);
        assert(src[close] == other[there + (close - start)]);
        lemma_same_part(src, start, end, other, there, start + 1, close);
        lemma_run_agrees(src, start + 1, close, other, there + 1, quote());
        assert(run_end(other, there + 1, quote()) == there + (close - start));
        lemma_same_text(src, start + 1, close, other, there + 1);
    } else if is_digit(c) {
        let whole = run_end(src, start, not_digit());
        lemma_run_end(src, start, not_digit());
        lemma_run_end(src, whole + 1, not_digit());
        assert(whole <= end);
        lemma_same_part(src, start, end, other, there, start, whole);
        let whole2 = there + (whole - start);
        if whole < end {
            assert(src[whole] == other[there + (whole - start)]);
            assert(src[whole + 1] == other[there + (whole + 1 - start)]);
        }
        lemma_run_agrees(src, start, whole, other, there, not_digit());
        assert(run_end(other, there, not_digit()) == whole2);
        if whole < end {
            lemma_same_part(src, start, end, other, there, whole + 1, end);
            lemma_run_agrees(src, whole + 1, end, other, whole2 + 1, not_digit());
        }
    } else if is_alpha(c) {
        lemma_run_end(src, start + 1, not_word());
        lemma_same_part(src, start, end, other, there, start + 1, end);
        lemma_run_agrees(src, start + 1, end, other, there + 1, not_word());
    } else {
        if end == start + 2 {
            assert(src[start + 1] == other[there + (start + 1 - start)]);
        }
    }
}

/// A token starts and ends with a byte that is a character of its own.
proof fn lemma_token_is_bounded(src: Seq<u8>, start: int, line: u32)
    requires
        0 <= start < src.len(),
        piece(src, start, line).found is Token,
    ensures
        start < piece(src, start, line).end <= src.len(),
        src[start] < 0x80,
        src[piece(src, start, line).end - 1] < 0x80,
{
    let c = src[start];
    lemma_piece_ends_later(src, start, line);
    lemma_run_end(src, start + 1, quote());
    lemma_run_end(src, start + 1, not_word());
    lemma_run_end(src, start, not_digit());
    let whole = run_end(src, start, not_digit());
    lemma_run_end(src, whole + 1, not_digit());
    if is_digit(c) {
        let end = piece(src, start, line).end;
        assert(is_digit(src[end - 1])) by {
            if end == whole {
                assert(!not_digit()(src[end - 1]));
            } else {
                assert(!not_digit()(src[end - 1]));
            }
        }
    } else if is_alpha(c) {
        let end = piece(src, start, line).end;
        if end > start + 1 {
            assert(!not_word()(src[end - 1]));
        }
    }
}

/// The bytes between two bytes that are characters of their own are valid
/// text.
proof fn lemma_slice_is_valid(bytes: Seq<u8>, from: int, to: int)
    requires
        valid_utf8(bytes),
        0 <= from < to <= bytes.len(),
        bytes[from] < 0x80,
        bytes[to - 1] < 0x80,
    ensures
        valid_utf8(bytes.subrange(from, to)),
        encode_utf8(slice_text(bytes, from, to)) == bytes.subrange(from, to),
{
    lemma_ascii_is_bounded(bytes, from);
    lemma_ascii_is_bounded(bytes, to - 1);
    valid_utf8_split(bytes, to);
    let head = bytes.subrange(0, to);
    is_char_boundary_iff_not_is_continuation_byte(bytes, from);
    is_char_boundary_iff_not_is_continuation_byte(head, from);
    valid_utf8_split(head, from);
    assert(head.subrange(from, head.len() as int) =~= bytes.subrange(from, to));
    decode_utf8_encode_utf8(bytes.subrange(from, to));
}

/// Where `other` spells from `there` on the tokens that `src` holds from
/// `start` on, it holds the same tokens from `there` on.
proof fn lemma_respelled_from(
    src: Seq<u8>,
    start: int,
    line: u32,
    other: Seq<u8>,
    there: int,
    line2: u32,
)
    requires
        valid_utf8(src),
        scan_from(src, start, line) is Ok,
        0 <= there <= other.len(),
        other.subrange(there, other.len() as int) == respelled(scan_from(src, start, line)->Ok_0),
    ensures
        scan_from(other, there, line2) is Ok,
        all_alike(scan_from(src, start, line)->Ok_0, scan_from(other, there, line2)->Ok_0),
    decreases src.len() - start,
{
    let ts = scan_from(src, start, line)->Ok_0;
    let tail = other.subrange(there, other.len() as int);
    if 0 <= start < src.len() {
        let p = piece(src, start, line);
        lemma_piece_ends_later(src, start, line);
        match p.found {
            Found::Token(kind) => {
                let t = token_at(src, start, p.end, kind, p.line);
                let rest = scan_from(src, p.end, p.line)->Ok_0;
                let n = p.end - start;
                assert(ts == seq![t] + rest);
                assert(ts.drop_first() =~= rest);
                assert(ts[0] == t);
                lemma_token_is_bounded(src, start, line);
                lemma_slice_is_valid(src, start, p.end);
                let lex = src.subrange(start, p.end);
                assert(tail == lex + seq![SPACE] + respelled(rest));
                assert(tail.len() == n + 1 + respelled(rest).len());
                assert forall|i: int| start <= i < p.end implies #[trigger] src[i] == other[there
                    + (i - start)] by {
                    assert(tail[i - start] == lex[i - start]);
                    assert(tail[i - start] == other[there + (i - start)]);
                }
                assert(tail[n] == SPACE);
                assert(other[there + n] == SPACE);
                lemma_token_respelled(src, start, line, other, there, line2);
                let q = piece(other, there, line2);
                let t2 = token_at(other, there, q.end, kind, q.line);
                // the space after the lexeme is a gap
                let gap = piece(other, there + n, q.line);
                assert(gap.found is Gap && gap.end == there + n + 1 && gap.line == q.line);
                assert(lex.len() == n);
                assert(tail.subrange(n + 1, tail.len() as int) =~= respelled(rest));
                assert(other.subrange(there + n + 1, other.len() as int) =~= tail.subrange(
                    n + 1,
                    tail.len() as int,
                ));
                lemma_respelled_from(src, p.end, p.line, other, there + n + 1, q.line);
                let again = scan_from(other, there + n + 1, q.line)->Ok_0;
                assert(scan_from(other, there + n, q.line) == scan_from(
                    other,
                    there + n + 1,
                    q.line,
                ));
                assert(scan_from(other, there, line2) == Ok::<Seq<TokenView>, ScanFailure>(
                    seq![t2] + again,
                ));
                assert(all_alike(ts, seq![t2] + again)) by {
                    assert forall|i: int| 0 <= i < ts.len() implies alike(
                        #[trigger] ts[i],
                        (seq![t2] + again)[i],
                    ) by {
                        if i > 0 {
                            assert(ts[i] == rest[i - 1]);
                            assert((seq![t2] + again)[i] == again[i - 1]);
                        }
                    }
                }
            },
            Found::Gap => {
                lemma_respelled_from(src, p.end, p.line, other, there, line2);
            },
            Found::Failure(_) => {},
        }
    } else {
        assert(ts == seq![eof_token(line)]);
        assert(ts.drop_first() =~= Seq::<TokenView>::empty());
        assert(encode_utf8(Seq::<char>::empty()) =~= Seq::<u8>::empty());
        assert(respelled(ts.drop_first()) =~= Seq::<u8>::empty());
        assert(respelled(ts) =~= seq![SPACE]);
        assert(tail[0] == SPACE);
        assert(other[there] == SPACE);
        assert(other.len() == there + 1);
        let gap = piece(other, there, line2);
        assert(gap.found is Gap && gap.end == there + 1 && gap.line == line2);
        assert(scan_from(other, there + 1, line2) == Ok::<Seq<TokenView>, ScanFailure>(
            seq![eof_token(line2)],
        ));
    }
}

/// The lexemes of the tokens of a text that can be scanned, written one
/// after the other with a space after each, scan to the same tokens: the
/// same categories, lexemes and values, in the same order.
pub proof fn lemma_respelled_scans_alike(text: Seq<char>)
    requires
        scan(encode_utf8(text)) is Ok,
    ensures
        scan(respelled(scan(encode_utf8(text))->Ok_0)) is Ok,
        all_alike(
            scan(encode_utf8(text))->Ok_0,
            scan(respelled(scan(encode_utf8(text))->Ok_0))->Ok_0,
        ),
{
    let src = encode_utf8(text);
    encode_utf8_valid_utf8(text);
    let other = respelled(scan(src)->Ok_0);
    assert(other.subrange(0, other.len() as int) =~= other);
    lemma_respelled_from(src, 0, 1, other, 0, 1);
}

} // verus!
