//! Reading a position back from its FEN text.

use vstd::prelude::*;
use crate::attack::valid_square;
use crate::board::BoardState;
use crate::fen::{
    Placement,
    castling_of,
    castling_ok,
    castling_text,
    counter_ok,
    fen_error,
    fen_text,
    parse_fen,
    placement_ok,
    placement_ok_upto,
    place_start,
    place_step,
    place_upto,
    placement_cells,
    rank_scan,
    rank_text,
    ranks_text,
    right_letter,
    side_ok,
    step_ok,
    target_ok,
};
use crate::piece::Piece;
use crate::text::{
    all_digits,
    decimal_digits,
    decimal_value,
    digit_value,
    is_space,
    law_square_name_round_trip,
    parse_u32_spec,
    scan_tokens,
    square_name,
    tokens,
};

verus! {

/// A position that FEN can hold: 128 cells with nothing off the board,
/// four castling rights, a target that is a square of the board, and no
/// moves to take back or play again.
pub open spec fn fen_position(st: BoardState) -> bool {
    &&& st.cells.len() == 128
    &&& forall|i: int| 0 <= i < 128 && !valid_square(i) ==> #[trigger] st.cells[i] == Piece::Empty
    &&& st.castling < 16
    &&& st.ep matches Some(e) ==> valid_square(e as int)
    &&& st.history.len() == 0
    &&& st.redo_stack.len() == 0
}

// ------------------------------------------------------------------ numbers

/// The digits of a number are digits, and spell the number.
pub proof fn lemma_decimal_round_trip(n: nat)
    ensures
        decimal_digits(n).len() >= 1,
        all_digits(decimal_digits(n)),
        decimal_value(decimal_digits(n)) == n,
        forall|i: int| 0 <= i < decimal_digits(n).len() ==> !is_space(#[trigger] decimal_digits(n)[i]),
        decimal_digits(n)[0] != '+',
        decimal_digits(n)[0] != '-',
    decreases n,
{
    if n >= 10 {
        lemma_decimal_round_trip(n / 10);
        let init = decimal_digits(n / 10);
        let d = decimal_digits(n);
        assert(d.drop_last() =~= init);
        assert(digit_value(d.last()) == Some((n % 10) as int));
        assert forall|i: int| 0 <= i < d.len() implies digit_value(#[trigger] d[i]) is Some by {
            if i < init.len() {
                assert(d[i] == init[i]);
            }
        }
        assert forall|i: int| 0 <= i < d.len() implies !is_space(#[trigger] d[i]) by {
            if i < init.len() {
                assert(d[i] == init[i]);
            }
        }
        assert(d[0] == init[0]);
    } else {
        let d = decimal_digits(n);
        assert(d.drop_last() =~= Seq::<char>::empty());
        assert(d.last() == d[0]);
        assert(digit_value(d[0]) == Some(n as int));
        assert(decimal_value(d.drop_last()) == 0);
    }
}

/// A number is read back from its digits.
pub proof fn lemma_parse_decimal(n: u32)
    ensures
        parse_u32_spec(decimal_digits(n as nat)) == Some(n),
{
    lemma_decimal_round_trip(n as nat);
}

// ------------------------------------------------------------------- tokens

/// A text without white space.
pub open spec fn solid(s: Seq<char>) -> bool {
    s.len() > 0 && forall|i: int| 0 <= i < s.len() ==> !is_space(#[trigger] s[i])
}

/// The state of the scan after a text that is followed by more text.
proof fn lemma_scan_prefix(a: Seq<char>, b: Seq<char>, n: int)
    requires
        0 <= n <= a.len(),
    ensures
        scan_tokens(a + b, n) == scan_tokens(a, n),
    decreases n,
{
    if n > 0 {
        lemma_scan_prefix(a, b, n - 1);
        assert((a + b)[n - 1] == a[n - 1]);
    }
}

/// Scanning a text without white space, after a text whose scan has ended
/// its tokens, adds the text's characters to the token in progress.
proof fn lemma_scan_solid(a: Seq<char>, w: Seq<char>, n: int)
    requires
        0 <= n <= w.len(),
        forall|i: int| 0 <= i < w.len() ==> !is_space(#[trigger] w[i]),
    ensures
        scan_tokens(a + w, a.len() + n) == (
            scan_tokens(a, a.len() as int).0,
            scan_tokens(a, a.len() as int).1 + w.take(n),
        ),
    decreases n,
{
    if n > 0 {
        lemma_scan_solid(a, w, n - 1);
        assert((a + w)[a.len() + n - 1] == w[n - 1]);
        assert(w.take(n) =~= w.take(n - 1).push(w[n - 1]));
        let cur = scan_tokens(a, a.len() as int).1;
        assert(cur + w.take(n) =~= (cur + w.take(n - 1)).push(w[n - 1]));
    } else {
        lemma_scan_prefix(a, w, a.len() as int);
        assert(w.take(0) =~= Seq::<char>::empty());
        assert(scan_tokens(a, a.len() as int).1 + w.take(0) =~= scan_tokens(a, a.len() as int).1);
    }
}

/// The scan of a text that ends with tokens `done`, followed by a space
/// and a text without white space, has ended `done` and is in the new
/// token.
proof fn lemma_scan_field(a: Seq<char>, done: Seq<Seq<char>>, last: Seq<char>, w: Seq<char>)
    requires
        scan_tokens(a, a.len() as int) == (done, last),
        last.len() > 0,
        solid(w),
    ensures
        scan_tokens(a + seq![' '] + w, (a + seq![' '] + w).len() as int) == (done.push(last), w),
{
    let sp = a + seq![' '];
    lemma_scan_prefix(a, seq![' '], a.len() as int);
    assert(sp[a.len() as int] == ' ');
    assert(scan_tokens(sp, sp.len() as int) == (done.push(last), Seq::<char>::empty()));
    lemma_scan_solid(sp, w, w.len() as int);
    assert(w.take(w.len() as int) =~= w);
    assert(Seq::<char>::empty() + w =~= w);
}

/// Six texts without white space, one space between them, are six tokens.
pub proof fn lemma_six_tokens(
    a: Seq<char>,
    b: Seq<char>,
    c: Seq<char>,
    d: Seq<char>,
    e: Seq<char>,
    f: Seq<char>,
)
    requires
        solid(a),
        solid(b),
        solid(c),
        solid(d),
        solid(e),
        solid(f),
    ensures
        tokens(a + seq![' '] + b + seq![' '] + c + seq![' '] + d + seq![' '] + e + seq![' '] + f)
            == seq![a, b, c, d, e, f],
{
    let none = Seq::<char>::empty();
    lemma_scan_solid(none, a, a.len() as int);
    assert(none + a =~= a);
    assert(a.take(a.len() as int) =~= a);
    assert(none + a.take(a.len() as int) =~= a);
    assert(scan_tokens(a, a.len() as int) == (Seq::<Seq<char>>::empty(), a));
    assert(Seq::<Seq<char>>::empty().push(a) =~= seq![a]);
    assert(seq![a].push(b) =~= seq![a, b]);
    assert(seq![a, b].push(c) =~= seq![a, b, c]);
    assert(seq![a, b, c].push(d) =~= seq![a, b, c, d]);
    assert(seq![a, b, c, d].push(e) =~= seq![a, b, c, d, e]);
    assert(seq![a, b, c, d, e].push(f) =~= seq![a, b, c, d, e, f]);
    let t1 = a + seq![' '] + b;
    lemma_scan_field(a, Seq::empty(), a, b);
    let t2 = t1 + seq![' '] + c;
    lemma_scan_field(t1, seq![a], b, c);
    let t3 = t2 + seq![' '] + d;
    lemma_scan_field(t2, seq![a, b], c, d);
    let t4 = t3 + seq![' '] + e;
    lemma_scan_field(t3, seq![a, b, c], d, e);
    let t5 = t4 + seq![' '] + f;
    lemma_scan_field(t4, seq![a, b, c, d], e, f);
}

// ---------------------------------------------------------------- placement

/// The placement after the characters of `s`, starting from `p`.
pub open spec fn place_chars(p: Placement, s: Seq<char>) -> Placement
    decreases s.len(),
{
    if s.len() == 0 {
        p
    } else {
        place_step(place_chars(p, s.drop_last()), s.last())
    }
}

proof fn lemma_place_upto(s: Seq<char>, n: int)
    requires
        0 <= n <= s.len(),
    ensures
        place_upto(s, n) == place_chars(place_start(), s.take(n)),
    decreases n,
{
    if n > 0 {
        lemma_place_upto(s, n - 1);
        assert(s.take(n).drop_last() =~= s.take(n - 1));
        assert(s.take(n).last() == s[n - 1]);
    }
}

proof fn lemma_place_append(p: Placement, a: Seq<char>, b: Seq<char>)
    ensures
        place_chars(p, a + b) == place_chars(place_chars(p, a), b),
    decreases b.len(),
{
    if b.len() == 0 {
        assert(a + b =~= a);
    } else {
        lemma_place_append(p, a, b.drop_last());
        assert((a + b).drop_last() =~= a + b.drop_last());
        assert((a + b).last() == b.last());
    }
}

proof fn lemma_place_one(p: Placement, c: char)
    ensures
        place_chars(p, seq![c]) == place_step(p, c),
{
    assert(seq![c].drop_last() =~= Seq::<char>::empty());
    assert(seq![c].last() == c);
    assert(seq![c].len() == 1);
    assert(place_chars(p, seq![c].drop_last()) == p);
}

/// Each character of `s` may follow in a placement that stands at `p`
/// before the first of them.
pub open spec fn chars_ok(p: Placement, s: Seq<char>) -> bool
    decreases s.len(),
{
    s.len() == 0 || (chars_ok(p, s.drop_last()) && step_ok(place_chars(p, s.drop_last()), s.last()))
}

proof fn lemma_ok_upto(s: Seq<char>, n: int)
    requires
        0 <= n <= s.len(),
    ensures
        placement_ok_upto(s, n) == chars_ok(place_start(), s.take(n)),
    decreases n,
{
    if n > 0 {
        lemma_ok_upto(s, n - 1);
        lemma_place_upto(s, n - 1);
        assert(s.take(n).drop_last() =~= s.take(n - 1));
        assert(s.take(n).last() == s[n - 1]);
    }
}

proof fn lemma_ok_append(p: Placement, a: Seq<char>, b: Seq<char>)
    ensures
        chars_ok(p, a + b) == (chars_ok(p, a) && chars_ok(place_chars(p, a), b)),
    decreases b.len(),
{
    if b.len() == 0 {
        assert(a + b =~= a);
    } else {
        lemma_ok_append(p, a, b.drop_last());
        lemma_place_append(p, a, b.drop_last());
        assert((a + b).drop_last() =~= a + b.drop_last());
        assert((a + b).last() == b.last());
    }
}

proof fn lemma_ok_one(p: Placement, c: char)
    ensures
        chars_ok(p, seq![c]) == step_ok(p, c),
{
    assert(seq![c].drop_last() =~= Seq::<char>::empty());
    assert(seq![c].last() == c);
    assert(seq![c].len() == 1);
    assert(place_chars(p, seq![c].drop_last()) == p);
    assert(chars_ok(p, seq![c].drop_last()));
}

/// The cells of `cells` on the ranks above `r` and on the first `k` files
/// of rank `r`, and nothing elsewhere.
pub open spec fn placed(cells: Seq<Piece>, r: int, k: int) -> Seq<Piece> {
    Seq::new(
        128,
        |i: int|
            if valid_square(i) && (i / 16 > r || (i / 16 == r && i % 16 < k)) {
                cells[i]
            } else {
                Piece::Empty
            },
    )
}

/// The run of empty squares that the scan of a rank carries is a run of
/// empty squares.
proof fn lemma_rank_scan_run(cells: Seq<Piece>, r: int, f: int)
    requires
        0 <= f <= 8,
    ensures
        0 <= rank_scan(cells, r, f).1 <= f,
        forall|j: int|
            f - rank_scan(cells, r, f).1 <= j < f ==> #[trigger] cells[16 * r + j] == Piece::Empty,
        forall|i: int|
            0 <= i < rank_scan(cells, r, f).0.len() ==> !is_space(#[trigger] rank_scan(cells, r, f).0[i]),
        f - rank_scan(cells, r, f).1 > 0 ==> rank_scan(cells, r, f).0.len() > 0,
    decreases f,
{
    if f > 0 {
        lemma_rank_scan_run(cells, r, f - 1);
        let (text, run) = rank_scan(cells, r, f - 1);
        let p = cells[16 * r + f - 1];
        if p != Piece::Empty {
            if run > 0 {
                lemma_decimal_round_trip(run as nat);
            }
            let now = rank_scan(cells, r, f).0;
            assert forall|i: int| 0 <= i < now.len() implies !is_space(#[trigger] now[i]) by {
                let mid = if run > 0 { text + decimal_digits(run as nat) } else { text };
                if i < text.len() {
                    assert(now[i] == text[i]);
                } else if i < mid.len() {
                    assert(now[i] == decimal_digits(run as nat)[i - text.len()]);
                } else {
                    assert(now[i] == p.spec_to_char());
                }
            }
        }
    }
}

/// Skipping a run of one to eight squares is written as one digit.
proof fn lemma_place_run(p: Placement, run: int)
    requires
        1 <= run <= 8,
    ensures
        place_chars(p, decimal_digits(run as nat)) == (Placement { file: p.file + run, ..p }),
        p.file + run <= 8 ==> chars_ok(p, decimal_digits(run as nat)),
{
    let d = decimal_digits(run as nat);
    assert(d =~= seq![d[0]]);
    lemma_place_one(p, d[0]);
    lemma_ok_one(p, d[0]);
    assert(digit_value(d[0]) == Some(run));
}

/// Writing a piece puts it on the next square.
proof fn lemma_place_piece(p: Placement, x: Piece)
    requires
        x != Piece::Empty,
        0 <= p.rank,
        0 <= p.file < 8,
    ensures
        place_step(p, x.spec_to_char()) == (Placement {
            cells: p.cells.update(16 * p.rank + p.file, x),
            file: p.file + 1,
            ..p
        }),
        step_ok(p, x.spec_to_char()),
{
}

/// Reading the text of the first `f` files of a rank fills them, up to the
/// run of empty squares that is not written yet.
proof fn lemma_place_rank_scan(cells: Seq<Piece>, r: int, f: int)
    requires
        0 <= r <= 7,
        0 <= f <= 8,
        cells.len() == 128,
    ensures
        place_chars(
            Placement { cells: placed(cells, r, 0), rank: r, file: 0 },
            rank_scan(cells, r, f).0,
        ) == (Placement {
            cells: placed(cells, r, f),
            rank: r,
            file: f - rank_scan(cells, r, f).1,
        }),
        chars_ok(Placement { cells: placed(cells, r, 0), rank: r, file: 0 }, rank_scan(cells, r, f).0),
    decreases f,
{
    let start = Placement { cells: placed(cells, r, 0), rank: r, file: 0 };
    if f == 0 {
    } else {
        lemma_place_rank_scan(cells, r, f - 1);
        lemma_rank_scan_run(cells, r, f - 1);
        lemma_rank_scan_run(cells, r, f);
        let (text, run) = rank_scan(cells, r, f - 1);
        let before = place_chars(start, text);
        let x = cells[16 * r + f - 1];
        if x == Piece::Empty {
            assert(placed(cells, r, f) =~= placed(cells, r, f - 1));
        } else {
            let mid_text = if run > 0 { text + decimal_digits(run as nat) } else { text };
            let mid = Placement { file: f - 1, ..before };
            if run > 0 {
                lemma_place_append(start, text, decimal_digits(run as nat));
                lemma_ok_append(start, text, decimal_digits(run as nat));
                lemma_place_run(before, run);
            }
            assert(place_chars(start, mid_text) == mid);
            assert(chars_ok(start, mid_text));
            let now_text = mid_text.push(x.spec_to_char());
            assert(now_text.drop_last() =~= mid_text);
            assert(now_text.last() == x.spec_to_char());
            lemma_place_piece(mid, x);
            assert(placed(cells, r, f - 1).update(16 * r + f - 1, x) =~= placed(cells, r, f));
        }
    }
}

/// Reading the text of a rank fills the rank.
proof fn lemma_place_rank(cells: Seq<Piece>, r: int)
    requires
        0 <= r <= 7,
        cells.len() == 128,
    ensures
        place_chars(Placement { cells: placed(cells, r, 0), rank: r, file: 0 }, rank_text(cells, r))
            == (Placement { cells: placed(cells, r, 8), rank: r, file: 8 }),
        chars_ok(Placement { cells: placed(cells, r, 0), rank: r, file: 0 }, rank_text(cells, r)),
        solid(rank_text(cells, r)),
{
    let start = Placement { cells: placed(cells, r, 0), rank: r, file: 0 };
    lemma_place_rank_scan(cells, r, 8);
    lemma_rank_scan_run(cells, r, 8);
    let (text, run) = rank_scan(cells, r, 8);
    if run > 0 {
        lemma_place_append(start, text, decimal_digits(run as nat));
        lemma_ok_append(start, text, decimal_digits(run as nat));
        lemma_place_run(place_chars(start, text), run);
        lemma_decimal_round_trip(run as nat);
        let all = text + decimal_digits(run as nat);
        assert forall|i: int| 0 <= i < all.len() implies !is_space(#[trigger] all[i]) by {
            if i < text.len() {
                assert(all[i] == text[i]);
            } else {
                assert(all[i] == decimal_digits(run as nat)[i - text.len()]);
            }
        }
    }
}

/// Reading the text of the top `k` ranks fills them.
proof fn lemma_place_ranks(cells: Seq<Piece>, k: int)
    requires
        0 <= k <= 8,
        cells.len() == 128,
    ensures
        place_chars(place_start(), ranks_text(cells, k)) == (if k < 8 {
            Placement { cells: placed(cells, 7 - k, 0), rank: 7 - k, file: 0 }
        } else {
            Placement { cells: placed(cells, 0, 8), rank: 0, file: 8 }
        }),
        chars_ok(place_start(), ranks_text(cells, k)),
        k > 0 ==> solid(ranks_text(cells, k)),
    decreases k,
{
    if k == 0 {
        assert(placed(cells, 7, 0) =~= place_start().cells);
    } else {
        lemma_place_ranks(cells, k - 1);
        let r = 8 - k;
        let above = ranks_text(cells, k - 1);
        let this = rank_text(cells, r);
        lemma_place_rank(cells, r);
        lemma_place_append(place_start(), above, this);
        lemma_ok_append(place_start(), above, this);
        let after = Placement { cells: placed(cells, r, 8), rank: r, file: 8 };
        assert(place_chars(place_start(), above + this) == after);
        let both = above + this;
        assert forall|i: int| 0 <= i < both.len() implies !is_space(#[trigger] both[i]) by {
            if i < above.len() {
                assert(both[i] == above[i]);
            } else {
                assert(both[i] == this[i - above.len()]);
            }
        }
        if r > 0 {
            lemma_place_append(place_start(), both, seq!['/']);
            lemma_ok_append(place_start(), both, seq!['/']);
            lemma_place_one(after, '/');
            lemma_ok_one(after, '/');
            assert(placed(cells, r, 8) =~= placed(cells, r - 1, 0));
            let all = both + seq!['/'];
            assert forall|i: int| 0 <= i < all.len() implies !is_space(#[trigger] all[i]) by {
                if i < both.len() {
                    assert(all[i] == both[i]);
                }
            }
        } else {
            assert(both + Seq::<char>::empty() =~= both);
        }
    }
}

/// The cells are read back from their placement text.
pub proof fn lemma_placement_round_trip(cells: Seq<Piece>)
    requires
        cells.len() == 128,
        forall|i: int| 0 <= i < 128 && !valid_square(i) ==> #[trigger] cells[i] == Piece::Empty,
    ensures
        placement_cells(ranks_text(cells, 8)) == cells,
        placement_ok(ranks_text(cells, 8)),
        solid(ranks_text(cells, 8)),
{
    let text = ranks_text(cells, 8);
    lemma_place_ranks(cells, 8);
    lemma_place_upto(text, text.len() as int);
    lemma_ok_upto(text, text.len() as int);
    assert(text.take(text.len() as int) =~= text);
    assert(placed(cells, 0, 8) =~= cells);
}

// ------------------------------------------------------------ other fields

proof fn lemma_bits(c: u8)
    by (bit_vector)
    requires
        c < 16,
    ensures
        c == (if c & 1 != 0 { 1u8 } else { 0u8 }) + (if c & 2 != 0 { 2u8 } else { 0u8 }) + (if c & 4
            != 0 {
            4u8
        } else {
            0u8
        }) + (if c & 8 != 0 { 8u8 } else { 0u8 }),
{
}

/// The castling rights are read back from their letters.
pub proof fn lemma_castling_round_trip(c: u8)
    requires
        c < 16,
    ensures
        castling_of(castling_text(c)) == c,
        castling_ok(castling_text(c)),
        solid(castling_text(c)),
{
    lemma_bits(c);
    let k: Seq<char> = if c & 1 != 0 { seq!['K'] } else { Seq::empty() };
    let q: Seq<char> = if c & 2 != 0 { seq!['Q'] } else { Seq::empty() };
    let bk: Seq<char> = if c & 4 != 0 { seq!['k'] } else { Seq::empty() };
    let bq: Seq<char> = if c & 8 != 0 { seq!['q'] } else { Seq::empty() };
    let all = k + q + bk + bq;
    let t = castling_text(c);
    assert forall|i: int| 0 <= i < all.len() implies (all[i] == 'K' || all[i] == 'Q' || all[i] == 'k'
        || all[i] == 'q') && !is_space(#[trigger] all[i]) by {
        if i < k.len() {
            assert(all[i] == k[i]);
        } else if i < k.len() + q.len() {
            assert(all[i] == q[i - k.len()]);
        } else if i < k.len() + q.len() + bk.len() {
            assert(all[i] == bk[i - k.len() - q.len()]);
        } else {
            assert(all[i] == bq[i - k.len() - q.len() - bk.len()]);
        }
    }
    if c & 1 != 0 {
        assert(all[0] == 'K');
    }
    if c & 2 != 0 {
        assert(all[k.len() as int] == 'Q');
    }
    if c & 4 != 0 {
        assert(all[(k.len() + q.len()) as int] == 'k');
    }
    if c & 8 != 0 {
        assert(all[(k.len() + q.len() + bk.len()) as int] == 'q');
    }
    assert forall|i: int| 0 <= i < all.len() && all[i] == 'K' implies c & 1 != 0 by {
        if i < k.len() {
        } else if i < k.len() + q.len() {
            assert(all[i] == q[i - k.len()]);
        } else if i < k.len() + q.len() + bk.len() {
            assert(all[i] == bk[i - k.len() - q.len()]);
        } else {
            assert(all[i] == bq[i - k.len() - q.len() - bk.len()]);
        }
    }
    assert forall|i: int| 0 <= i < all.len() && all[i] == 'Q' implies c & 2 != 0 by {
        if i < k.len() {
            assert(all[i] == k[i]);
        } else if i < k.len() + q.len() {
        } else if i < k.len() + q.len() + bk.len() {
            assert(all[i] == bk[i - k.len() - q.len()]);
        } else {
            assert(all[i] == bq[i - k.len() - q.len() - bk.len()]);
        }
    }
    assert forall|i: int| 0 <= i < all.len() && all[i] == 'k' implies c & 4 != 0 by {
        if i < k.len() {
            assert(all[i] == k[i]);
        } else if i < k.len() + q.len() {
            assert(all[i] == q[i - k.len()]);
        } else if i < k.len() + q.len() + bk.len() {
        } else {
            assert(all[i] == bq[i - k.len() - q.len() - bk.len()]);
        }
    }
    assert forall|i: int| 0 <= i < all.len() && all[i] == 'q' implies c & 8 != 0 by {
        if i < k.len() {
            assert(all[i] == k[i]);
        } else if i < k.len() + q.len() {
            assert(all[i] == q[i - k.len()]);
        } else if i < k.len() + q.len() + bk.len() {
            assert(all[i] == bk[i - k.len() - q.len()]);
        } else {
        }
    }
    if all.len() > 0 {
        assert forall|i: int| 0 <= i < all.len() implies right_letter(#[trigger] all[i]) by {}
    }
    if all.len() == 0 {
        assert(t =~= seq!['-']);
        assert(t[0] == '-');
        assert(!t.contains('K'));
        assert(!t.contains('Q'));
        assert(!t.contains('k'));
        assert(!t.contains('q'));
    } else {
        assert(t == all);
        assert(t.contains('K') <==> c & 1 != 0);
        assert(t.contains('Q') <==> c & 2 != 0);
        assert(t.contains('k') <==> c & 4 != 0);
        assert(t.contains('q') <==> c & 8 != 0);
    }
}

/// The FEN text of a position has no field that is not well formed, and
/// the position is read back from it.
pub proof fn law_fen_round_trip(st: BoardState)
    requires
        fen_position(st),
    ensures
        fen_error(fen_text(st)) is None,
        parse_fen(fen_text(st)) == st,
{
    let a = ranks_text(st.cells, 8);
    let b = seq![if st.side_white { 'w' } else { 'b' }];
    let c = castling_text(st.castling);
    let d = match st.ep {
        Some(e) => square_name(e),
        None => seq!['-'],
    };
    let e = decimal_digits(st.halfmove_clock as nat);
    let f = decimal_digits(st.fullmove as nat);
    lemma_placement_round_trip(st.cells);
    lemma_castling_round_trip(st.castling);
    lemma_decimal_round_trip(st.halfmove_clock as nat);
    lemma_decimal_round_trip(st.fullmove as nat);
    lemma_parse_decimal(st.halfmove_clock);
    lemma_parse_decimal(st.fullmove);
    assert(solid(b));
    assert(solid(d)) by {
        match st.ep {
            Some(sq) => {
                assert(!is_space(square_name(sq)[0]));
                assert(!is_space(square_name(sq)[1]));
            },
            None => {},
        }
    }
    lemma_six_tokens(a, b, c, d, e, f);
    let t = tokens(fen_text(st));
    assert(t == seq![a, b, c, d, e, f]);
    assert(t[1] == seq!['w'] <==> st.side_white) by {
        assert(b[0] == (if st.side_white { 'w' } else { 'b' }));
        assert(seq!['w'][0] == 'w');
    }
    match st.ep {
        Some(sq) => {
            law_square_name_round_trip(sq);
            assert(d.len() == 2);
            assert(seq!['-'].len() == 1);
            assert(target_ok(d));
        },
        None => {},
    }
    assert(side_ok(b)) by {
        if st.side_white {
            assert(b =~= seq!['w']);
        } else {
            assert(b =~= seq!['b']);
        }
    }
    assert(counter_ok(e));
    assert(counter_ok(f));
    let back = parse_fen(fen_text(st));
    assert(back.history =~= st.history);
    assert(back.redo_stack =~= st.redo_stack);
}

} // verus!
