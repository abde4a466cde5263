use vstd::prelude::*;
use vstd::utf8::{encode_utf8, is_ascii_chars};
use crate::modulate::modulate_int;
use crate::numeral::decimal;
use crate::numeral::spec_parse_i64;
use crate::request::{
    close_code, comma_code, commands_request, cons_code, join_request, nil_code, open_code,
    player_key_value, start_request,
};
use crate::demodulate::one_byte;
use crate::response::{
    Piece, int_count, piece_byte, spec_scan, header_pattern, quad_pattern, static_end_pattern,
    state_pattern, spec_read_game_response, spec_decode_response2, still_reply,
};
use crate::demodulate::{
    begins_with, zero_byte, spec_decode_response, spec_render_term, blank_reply,
};
use crate::laws::{
    ascii_bytes, is_bit_string, lemma_decode_modulated_int, lemma_encode_ascii,
    lemma_modulate_int_shape,
};

verus! {

/// Whether `v` has magnitude below `2^60`, the integers that read back.
pub open spec fn small(v: int) -> bool {
    -0x1000_0000_0000_0000 < v < 0x1000_0000_0000_0000
}

/// Whether every integer of `vals` has magnitude below `2^60`.
pub open spec fn all_small(vals: Seq<int>) -> bool {
    forall|j: int| 0 <= j < vals.len() ==> small(#[trigger] vals[j])
}

/// The two-character code of a token piece.
pub open spec fn piece_code(p: Piece) -> Seq<char> {
    if piece_byte(p) == one_byte() {
        seq!['1', '1']
    } else {
        seq!['0', '0']
    }
}

/// Writes the pieces `pat` with the integers `vals` in order: each token as
/// its code, each integer as its modulated form.
pub open spec fn write_pieces(pat: Seq<Piece>, vals: Seq<int>) -> Seq<char>
    decreases pat.len(),
{
    if pat.len() == 0 {
        Seq::empty()
    } else if pat[0] == Piece::Int {
        modulate_int(vals[0]) + write_pieces(pat.drop_first(), vals.drop_first())
    } else {
        piece_code(pat[0]) + write_pieces(pat.drop_first(), vals)
    }
}

/// Written pieces are a bit string.
pub proof fn lemma_write_pieces_bits(pat: Seq<Piece>, vals: Seq<int>)
    ensures
        is_bit_string(write_pieces(pat, vals)),
        is_ascii_chars(write_pieces(pat, vals)),
    decreases pat.len(),
{
    let w = write_pieces(pat, vals);
    if pat.len() > 0 {
        let (head, tail) = if pat[0] == Piece::Int {
            lemma_modulate_int_shape(vals[0]);
            lemma_write_pieces_bits(pat.drop_first(), vals.drop_first());
            (modulate_int(vals[0]), write_pieces(pat.drop_first(), vals.drop_first()))
        } else {
            lemma_write_pieces_bits(pat.drop_first(), vals);
            (piece_code(pat[0]), write_pieces(pat.drop_first(), vals))
        };
        assert(w == head + tail);
        assert forall|j: int| 0 <= j < w.len() implies #[trigger] w[j] == '0' || w[j] == '1' by {
            if j < head.len() {
                assert(w[j] == head[j]);
            } else {
                assert(w[j] == tail[j - head.len()]);
            }
        }
    }
    assert forall|j: int| 0 <= j < w.len() implies '\0' <= #[trigger] w[j] <= '\u{7f}' by {
        assert(w[j] == '0' || w[j] == '1');
    }
}

/// Reading back written pieces: scanning the bytes of the pieces `pat`
/// written with the integers `vals`, followed by any bytes, gives exactly
/// `vals` and those following bytes.
pub proof fn lemma_scan_written(pat: Seq<Piece>, vals: Seq<int>, rest: Seq<u8>)
    requires
        vals.len() == int_count(pat),
        all_small(vals),
    ensures
        spec_scan(ascii_bytes(write_pieces(pat, vals)) + rest, pat) == Some((vals, rest)),
    decreases pat.len(),
{
    let w = write_pieces(pat, vals);
    let b = ascii_bytes(w) + rest;
    if pat.len() == 0 {
        assert(b =~= rest);
        assert(vals =~= Seq::<int>::empty());
    } else if pat[0] == Piece::Int {
        let v = vals[0];
        let m = modulate_int(v);
        let tail = write_pieces(pat.drop_first(), vals.drop_first());
        let more = ascii_bytes(tail) + rest;
        assert(all_small(vals.drop_first())) by {
            assert forall|j: int| 0 <= j < vals.drop_first().len() implies small(
                #[trigger] vals.drop_first()[j],
            ) by {
                assert(vals.drop_first()[j] == vals[j + 1]);
            }
        }
        assert(small(vals[0]));
        lemma_scan_written(pat.drop_first(), vals.drop_first(), rest);
        lemma_modulate_int_shape(v);
        lemma_encode_ascii(m);
        lemma_decode_modulated_int(v, more);
        assert(b =~= encode_utf8(m) + more);
        assert(seq![v] + vals.drop_first() =~= vals);
    } else {
        let c = piece_code(pat[0]);
        let tail = write_pieces(pat.drop_first(), vals);
        let more = ascii_bytes(tail) + rest;
        lemma_scan_written(pat.drop_first(), vals, rest);
        assert(b =~= ascii_bytes(c) + more);
        assert(('0' as u8) == 0x30u8 && ('1' as u8) == 0x31u8);
        assert(b[0] == piece_byte(pat[0]) && b[1] == piece_byte(pat[0]));
        assert(b.subrange(2, b.len() as int) =~= more);
    }
}


/// The token codes as the pieces write them.
proof fn lemma_codes()
    ensures
        open_code() == piece_code(Piece::Open),
        close_code() == piece_code(Piece::Close),
        comma_code() == piece_code(Piece::Comma),
        nil_code() == piece_code(Piece::Nil),
        cons_code() == piece_code(Piece::Cons),
{
    assert(seq![')'][0] != seq!['('][0]);
    assert(seq![')'][0] != seq![','][0]);
    assert(seq!['n', 'i', 'l'].len() != seq!['c', 'o', 'n', 's'].len());
}

/// Reads back the bytes of written pieces that hold all the text.
proof fn lemma_scan_written_whole(pat: Seq<Piece>, vals: Seq<int>)
    requires
        vals.len() == int_count(pat),
        all_small(vals),
    ensures
        spec_scan(encode_utf8(write_pieces(pat, vals)), pat) == Some((vals, Seq::<u8>::empty())),
{
    let w = write_pieces(pat, vals);
    lemma_write_pieces_bits(pat, vals);
    lemma_encode_ascii(w);
    lemma_scan_written(pat, vals, Seq::empty());
    assert(ascii_bytes(w) + Seq::<u8>::empty() =~= ascii_bytes(w));
}

/// Writing two runs of pieces one after the other writes their texts one
/// after the other.
pub proof fn lemma_write_concat(a: Seq<Piece>, b: Seq<Piece>, va: Seq<int>, vb: Seq<int>)
    requires
        va.len() == int_count(a),
    ensures
        write_pieces(a + b, va + vb) == write_pieces(a, va) + write_pieces(b, vb),
        int_count(a + b) == int_count(a) + int_count(b),
    decreases a.len(),
{
    if a.len() == 0 {
        assert(a + b =~= b);
        assert(va =~= Seq::<int>::empty());
        assert(va + vb =~= vb);
    } else {
        assert((a + b).drop_first() =~= a.drop_first() + b);
        assert((a + b)[0] == a[0]);
        if a[0] == Piece::Int {
            assert((va + vb).drop_first() =~= va.drop_first() + vb);
            assert((va + vb)[0] == va[0]);
            lemma_write_concat(a.drop_first(), b, va.drop_first(), vb);
        } else {
            lemma_write_concat(a.drop_first(), b, va, vb);
        }
        assert(write_pieces(a + b, va + vb) =~= write_pieces(a, va) + write_pieces(b, vb));
    }
}

/// `( n , key ,`, written out: the front of every request.
#[verifier::opaque]
pub open spec fn front_text(n: int, key: int) -> Seq<char> {
    open_code() + modulate_int(n) + comma_code() + modulate_int(key) + comma_code()
}

/// The pieces of the front of every request.
pub open spec fn front_pattern() -> Seq<Piece> {
    seq![Piece::Open, Piece::Int, Piece::Comma, Piece::Int, Piece::Comma]
}

/// `x2 , x3 ) )`, written out: the end of a start request.
#[verifier::opaque]
pub open spec fn start_end_text(x2: int, x3: int) -> Seq<char> {
    modulate_int(x2) + comma_code() + modulate_int(x3) + close_code() + close_code()
}

/// The pieces of the end of a start request.
pub open spec fn start_end_pattern() -> Seq<Piece> {
    seq![Piece::Int, Piece::Comma, Piece::Int, Piece::Close, Piece::Close]
}

/// `( ( 0 , ship ,`, written out: the middle of a commands request.
#[verifier::opaque]
pub open spec fn commands_middle_text(ship: int) -> Seq<char> {
    open_code() + open_code() + modulate_int(0) + comma_code() + modulate_int(ship) + comma_code()
}

/// The pieces of the middle of a commands request.
pub open spec fn commands_middle_pattern() -> Seq<Piece> {
    seq![Piece::Open, Piece::Open, Piece::Int, Piece::Comma, Piece::Int, Piece::Comma]
}

/// `cons vx vy ) ) )`, written out: the end of a commands request.
#[verifier::opaque]
pub open spec fn commands_end_text(vx: int, vy: int) -> Seq<char> {
    cons_code() + modulate_int(vx) + modulate_int(vy) + close_code() + close_code() + close_code()
}

/// The pieces of the end of a commands request.
pub open spec fn commands_end_pattern() -> Seq<Piece> {
    seq![Piece::Cons, Piece::Int, Piece::Int, Piece::Close, Piece::Close, Piece::Close]
}

/// How the parts of the requests are written.
proof fn lemma_parts(n: int, key: int, x2: int, x3: int, ship: int, vx: int, vy: int)
    ensures
        write_pieces(front_pattern(), seq![n, key]) == front_text(n, key),
        int_count(front_pattern()) == 2,
        write_pieces(start_end_pattern(), seq![x2, x3]) == start_end_text(x2, x3),
        int_count(start_end_pattern()) == 2,
        write_pieces(commands_middle_pattern(), seq![0, ship]) == commands_middle_text(ship),
        int_count(commands_middle_pattern()) == 2,
        write_pieces(commands_end_pattern(), seq![vx, vy]) == commands_end_text(vx, vy),
        int_count(commands_end_pattern()) == 2,
{
    reveal(front_text);
    reveal(start_end_text);
    reveal(commands_middle_text);
    reveal(commands_end_text);
    lemma_codes();
    reveal_with_fuel(write_pieces, 7);
    reveal_with_fuel(int_count, 7);
    assert(write_pieces(front_pattern(), seq![n, key]) =~= front_text(n, key));
    assert(write_pieces(start_end_pattern(), seq![x2, x3]) =~= start_end_text(x2, x3));
    assert(write_pieces(commands_middle_pattern(), seq![0, ship]) =~= commands_middle_text(ship));
    assert(write_pieces(commands_end_pattern(), seq![vx, vy]) =~= commands_end_text(vx, vy));
}

/// The requests cut into their parts.
proof fn lemma_request_texts(v: int, x0: int, x1: int, x2: int, x3: int, ship: int, vx: int, vy: int)
    ensures
        start_request(v, x0, x1, x2, x3) == front_text(3, v) + front_text(x0, x1) + start_end_text(
            x2,
            x3,
        ),
        commands_request(v, ship, vx, vy) == front_text(4, v) + commands_middle_text(ship)
            + commands_end_text(vx, vy),
        join_request(v) == front_text(2, v) + nil_code() + close_code(),
{
    reveal(front_text);
    reveal(start_end_text);
    reveal(commands_middle_text);
    reveal(commands_end_text);
    assert(start_request(v, x0, x1, x2, x3) =~= front_text(3, v) + front_text(x0, x1)
        + start_end_text(x2, x3));
    assert(commands_request(v, ship, vx, vy) =~= front_text(4, v) + commands_middle_text(ship)
        + commands_end_text(vx, vy));
    assert(join_request(v) =~= front_text(2, v) + nil_code() + close_code());
}

/// The shape of a join request: `( Int , Int , nil )`.
pub open spec fn join_pattern() -> Seq<Piece> {
    front_pattern() + seq![Piece::Nil, Piece::Close]
}

/// The shape of a start request: `( Int , Int , ( Int , Int , Int , Int ) )`.
pub open spec fn start_pattern() -> Seq<Piece> {
    front_pattern() + front_pattern() + start_end_pattern()
}

/// The shape of a commands request:
/// `( Int , Int , ( ( Int , Int , cons Int Int ) ) )`.
pub open spec fn commands_pattern() -> Seq<Piece> {
    front_pattern() + commands_middle_pattern() + commands_end_pattern()
}

/// Reading back a join request gives `2` and the whole key that its text
/// holds, and nothing after them.
pub proof fn lemma_read_back_join_request(key: Seq<u8>, v: int)
    requires
        spec_parse_i64(key) == Some(v),
        small(v),
    ensures
        spec_scan(encode_utf8(join_request(player_key_value(key))), join_pattern()) == Some(
            (seq![2, v], Seq::<u8>::empty()),
        ),
{
    let tail = seq![Piece::Nil, Piece::Close];
    lemma_parts(2, v, 0, 0, 0, 0, 0);
    lemma_request_texts(v, 0, 0, 0, 0, 0, 0, 0);
    lemma_codes();
    assert(write_pieces(tail, Seq::<int>::empty()) == nil_code() + close_code()
        && int_count(tail) == 0) by {
        reveal_with_fuel(write_pieces, 3);
        reveal_with_fuel(int_count, 3);
        assert(write_pieces(tail, Seq::<int>::empty()) =~= nil_code() + close_code());
    }
    lemma_write_concat(front_pattern(), tail, seq![2, v], Seq::empty());
    assert(seq![2, v] + Seq::<int>::empty() =~= seq![2, v]);
    assert(all_small(seq![2, v]));
    assert(join_request(v) =~= write_pieces(join_pattern(), seq![2, v]));
    lemma_scan_written_whole(join_pattern(), seq![2, v]);
}

/// Reading back a start request gives `3`, the whole key that its text
/// holds and the ship parameters in the order they were given, and nothing
/// after them.
pub proof fn lemma_read_back_start_request(key: Seq<u8>, v: int, x0: int, x1: int, x2: int, x3: int)
    requires
        spec_parse_i64(key) == Some(v),
        small(v),
        small(x0),
        small(x1),
        small(x2),
        small(x3),
    ensures
        spec_scan(
            encode_utf8(start_request(player_key_value(key), x0, x1, x2, x3)),
            start_pattern(),
        ) == Some((seq![3, v, x0, x1, x2, x3], Seq::<u8>::empty())),
{
    let f = front_pattern();
    let e = start_end_pattern();
    lemma_parts(3, v, x2, x3, 0, 0, 0);
    lemma_parts(x0, x1, x2, x3, 0, 0, 0);
    lemma_request_texts(v, x0, x1, x2, x3, 0, 0, 0);
    lemma_write_concat(f, f, seq![3, v], seq![x0, x1]);
    lemma_write_concat(f + f, e, seq![3, v] + seq![x0, x1], seq![x2, x3]);
    let vals = seq![3, v] + seq![x0, x1] + seq![x2, x3];
    assert(vals =~= seq![3, v, x0, x1, x2, x3]);
    assert(all_small(vals));
    lemma_scan_written_whole(start_pattern(), vals);
}

/// Reading back a commands request gives `4`, the whole key that its text
/// holds, `0`, the ship id and the vector as given, and nothing after them.
pub proof fn lemma_read_back_commands_request(key: Seq<u8>, v: int, ship: int, vx: int, vy: int)
    requires
        spec_parse_i64(key) == Some(v),
        small(v),
        small(ship),
        small(vx),
        small(vy),
    ensures
        spec_scan(
            encode_utf8(commands_request(player_key_value(key), ship, vx, vy)),
            commands_pattern(),
        ) == Some((seq![4, v, 0, ship, vx, vy], Seq::<u8>::empty())),
{
    let f = front_pattern();
    let m = commands_middle_pattern();
    let e = commands_end_pattern();
    lemma_parts(4, v, 0, 0, ship, vx, vy);
    lemma_request_texts(v, 0, 0, 0, 0, ship, vx, vy);
    lemma_write_concat(f, m, seq![4, v], seq![0, ship]);
    lemma_write_concat(f + m, e, seq![4, v] + seq![0, ship], seq![vx, vy]);
    let vals = seq![4, v] + seq![0, ship] + seq![vx, vy];
    assert(vals =~= seq![4, v, 0, ship, vx, vy]);
    assert(all_small(vals));
    lemma_scan_written_whole(commands_pattern(), vals);
}


/// The text of a game response written from its parts: the header with the
/// integers `head`, then the four-integer list `quad` or `nil`, then `) ,`,
/// then the game state with the integers `state` or `nil`.
pub open spec fn game_response_text(
    head: Seq<int>,
    quad: Option<Seq<int>>,
    state: Option<Seq<int>>,
) -> Seq<char> {
    write_pieces(header_pattern(), head) + match quad {
        Some(q) => write_pieces(quad_pattern(), q),
        None => write_pieces(seq![Piece::Nil], Seq::empty()),
    } + write_pieces(static_end_pattern(), Seq::empty()) + match state {
        Some(st) => write_pieces(state_pattern(), st),
        None => write_pieces(seq![Piece::Nil], Seq::empty()),
    }
}

/// The bytes of a text are the bytes of its parts.
pub proof fn lemma_ascii_concat(a: Seq<char>, b: Seq<char>)
    ensures
        ascii_bytes(a + b) == ascii_bytes(a) + ascii_bytes(b),
{
    assert(ascii_bytes(a + b) =~= ascii_bytes(a) + ascii_bytes(b));
}

/// The integer counts of the shapes of a game response.
proof fn lemma_response_counts()
    ensures
        int_count(header_pattern()) == 9,
        int_count(quad_pattern()) == 4,
        int_count(static_end_pattern()) == 0,
        int_count(state_pattern()) == 9,
        int_count(seq![Piece::Nil]) == 0,
{
    reveal_with_fuel(int_count, 25);
}

/// Written pieces that begin with a token begin with the bytes of its code.
proof fn lemma_written_begins(pat: Seq<Piece>, vals: Seq<int>, rest: Seq<u8>)
    requires
        pat.len() > 0,
        pat[0] != Piece::Int,
    ensures
        begins_with(
            ascii_bytes(write_pieces(pat, vals)) + rest,
            piece_byte(pat[0]),
            piece_byte(pat[0]),
        ),
{
    let w = write_pieces(pat, vals);
    assert(w == piece_code(pat[0]) + write_pieces(pat.drop_first(), vals));
    assert(w[0] == piece_code(pat[0])[0] && w[1] == piece_code(pat[0])[1]);
    assert(('0' as u8) == 0x30u8 && ('1' as u8) == 0x31u8);
    let b = ascii_bytes(w) + rest;
    assert(b[0] == w[0] as u8 && b[1] == w[1] as u8);
}

/// Reading back a game response: a response written from its parts reads
/// as its game stage (the second integer of the header) with, when it has a
/// game state, the role, ship id, position and velocity of the state's
/// first ship, and otherwise the header's role and zeros.
pub proof fn lemma_read_back_game_response(
    head: Seq<int>,
    quad: Option<Seq<int>>,
    state: Option<Seq<int>>,
    rest: Seq<u8>,
)
    requires
        head.len() == 9,
        all_small(head),
        quad matches Some(q) ==> q.len() == 4 && all_small(q),
        state matches Some(st) ==> st.len() == 9 && all_small(st),
    ensures
        spec_read_game_response(ascii_bytes(game_response_text(head, quad, state)) + rest) == Some(
            match state {
                Some(st) => (head[1], st[3], st[4], st[5], st[6], st[7], st[8]),
                None => (head[1], head[3], 0, 0, 0, 0, 0),
            },
        ),
{
    lemma_response_counts();
    let nil = seq![Piece::Nil];
    let empty = Seq::<int>::empty();
    let h = write_pieces(header_pattern(), head);
    let x = match quad {
        Some(q) => write_pieces(quad_pattern(), q),
        None => write_pieces(nil, empty),
    };
    let e = write_pieces(static_end_pattern(), empty);
    let st_text = match state {
        Some(st) => write_pieces(state_pattern(), st),
        None => write_pieces(nil, empty),
    };
    let r3 = ascii_bytes(st_text) + rest;
    let r2 = ascii_bytes(e) + r3;
    let r1 = ascii_bytes(x) + r2;
    let b = ascii_bytes(h) + r1;
    assert(game_response_text(head, quad, state) == h + x + e + st_text);
    lemma_ascii_concat(h + x + e, st_text);
    lemma_ascii_concat(h + x, e);
    lemma_ascii_concat(h, x);
    assert(ascii_bytes(game_response_text(head, quad, state)) + rest =~= b);
    assert(all_small(empty));
    lemma_scan_written(header_pattern(), head, r1);
    assert(quad_pattern()[0] == Piece::Open);
    assert(state_pattern()[0] == Piece::Open);
    assert(static_end_pattern()[0] == Piece::Close);
    match quad {
        Some(q) => {
            lemma_written_begins(quad_pattern(), q, r2);
            lemma_scan_written(quad_pattern(), q, r2);
        },
        None => {
            lemma_written_begins(nil, empty, r2);
            lemma_scan_written(nil, empty, r2);
        },
    }
    lemma_scan_written(static_end_pattern(), empty, r3);
    match state {
        Some(st) => {
            lemma_written_begins(state_pattern(), st, rest);
            lemma_scan_written(state_pattern(), st, rest);
        },
        None => {
            lemma_written_begins(nil, empty, rest);
        },
    }
}

/// Every game response other than the recorded still reply is read by its
/// shape.
pub proof fn lemma_decode_response2_reads_shape(b: Seq<u8>)
    requires
        b != encode_utf8(still_reply()),
    ensures
        spec_decode_response2(b) == spec_read_game_response(b),
{
}

/// Every response other than the recorded blank reply demodulates to its
/// rendering as a term.
pub proof fn lemma_decode_response_renders(b: Seq<u8>)
    requires
        b != encode_utf8(blank_reply()),
    ensures
        spec_decode_response(b) == spec_render_term(b),
{
}


/// A response that begins with `11` renders, when it renders at all, as a
/// text that begins with `(` and ends with `)`.
pub proof fn lemma_render_list_parenthesised(b: Seq<u8>)
    requires
        begins_with(b, one_byte(), one_byte()),
        spec_render_term(b) is Some,
    ensures
        spec_render_term(b).unwrap().len() >= 2,
        spec_render_term(b).unwrap()[0] == '(',
        spec_render_term(b).unwrap().last() == ')',
{
}

/// `11`, a term and `00` render as the term's text in parentheses.
pub proof fn lemma_render_list(x: Seq<u8>)
    requires
        spec_render_term(x) is Some,
    ensures
        spec_render_term(seq![one_byte(), one_byte()] + x + seq![zero_byte(), zero_byte()]) == Some(
            seq!['('] + spec_render_term(x).unwrap() + seq![')'],
        ),
{
    let b = seq![one_byte(), one_byte()] + x + seq![zero_byte(), zero_byte()];
    assert(b.subrange(2, b.len() - 2) =~= x);
    assert(b[b.len() - 2] == zero_byte());
    assert(b[0] == one_byte() && b[1] == one_byte());
}

/// `00` before a term renders as `nil` before the term's text.
pub proof fn lemma_render_nil(x: Seq<u8>)
    requires
        spec_render_term(x) is Some,
    ensures
        spec_render_term(seq![zero_byte(), zero_byte()] + x) == Some(
            seq!['n', 'i', 'l'] + spec_render_term(x).unwrap(),
        ),
{
    let b = seq![zero_byte(), zero_byte()] + x;
    assert(b.subrange(2, b.len() as int) =~= x);
    assert(b[0] == zero_byte() && b[1] == zero_byte());
}

/// A modulated integer before a term renders as the integer's decimal text
/// before the term's text.
pub proof fn lemma_render_int_before(i: int, x: Seq<u8>)
    requires
        small(i),
        spec_render_term(x) is Some,
    ensures
        spec_render_term(encode_utf8(modulate_int(i)) + x) == Some(
            decimal(i) + spec_render_term(x).unwrap(),
        ),
{
    let m = modulate_int(i);
    lemma_decode_modulated_int(i, x);
    lemma_modulate_int_shape(i);
    lemma_encode_ascii(m);
    crate::laws::lemma_sign_code_front(i);
    let b = encode_utf8(m) + x;
    assert(b[0] == m[0] as u8 && b[1] == m[1] as u8);
    assert(('0' as u8) == 0x30u8 && ('1' as u8) == 0x31u8);
}

} // verus!
