use vstd::prelude::*;
use vstd::string::StringSliceAdditionalSpecFns;
use crate::demodulate::{begins_with, one_byte, zero_byte, spec_decode_int, parse_int, suffix_after_ascii, same_bytes};
use vstd::utf8::encode_utf8;

verus! {

/// One element of the shape of a game response: a list token or an integer.
#[derive(Clone, Copy, PartialEq, Eq, Structural)]
pub enum Piece {
    /// `(`, written `11`.
    Open,
    /// `)`, written `00`.
    Close,
    /// `,`, written `11`.
    Comma,
    /// `nil`, written `00`.
    Nil,
    /// `cons`, written `11`.
    Cons,
    /// A modulated integer.
    Int,
}

/// The byte that a token piece's code repeats twice.
pub open spec fn piece_byte(p: Piece) -> u8 {
    match p {
        Piece::Open | Piece::Comma | Piece::Cons => one_byte(),
        _ => zero_byte(),
    }
}

/// Reads the pieces `pat` in order from the front of `b`: each token must
/// appear as its code, each integer as a modulated integer.  Gives the
/// integers read and the bytes after the last piece, or `None`.
pub open spec fn spec_scan(b: Seq<u8>, pat: Seq<Piece>) -> Option<(Seq<int>, Seq<u8>)>
    decreases pat.len(),
{
    if pat.len() == 0 {
        Some((Seq::empty(), b))
    } else if pat[0] == Piece::Int {
        match spec_decode_int(b) {
            Some((v, rest)) => match spec_scan(rest, pat.drop_first()) {
                Some((vs, r)) => Some((seq![v] + vs, r)),
                None => None,
            },
            None => None,
        }
    } else if begins_with(b, piece_byte(pat[0]), piece_byte(pat[0])) {
        spec_scan(b.subrange(2, b.len() as int), pat.drop_first())
    } else {
        None
    }
}

/// The number of integer pieces in `pat`.
pub open spec fn int_count(pat: Seq<Piece>) -> nat
    decreases pat.len(),
{
    if pat.len() == 0 {
        0
    } else {
        (if pat[0] == Piece::Int { 1nat } else { 0nat }) + int_count(pat.drop_first())
    }
}

/// A scan gives one integer per integer piece.
pub proof fn lemma_scan_count(b: Seq<u8>, pat: Seq<Piece>)
    ensures
        spec_scan(b, pat) matches Some((vs, _)) ==> vs.len() == int_count(pat),
    decreases pat.len(),
{
    if pat.len() > 0 {
        if pat[0] == Piece::Int {
            if let Some((v, rest)) = spec_decode_int(b) {
                lemma_scan_count(rest, pat.drop_first());
            }
        } else {
            lemma_scan_count(b.subrange(2, b.len() as int), pat.drop_first());
        }
    }
}

/// Puts `vs` before the integers of a scan result.
pub open spec fn prepend(vs: Seq<int>, r: Option<(Seq<int>, Seq<u8>)>) -> Option<(Seq<int>, Seq<u8>)> {
    match r {
        Some((ws, rest)) => Some((vs + ws, rest)),
        None => None,
    }
}

/// The integers of `v` as mathematical integers.
pub open spec fn ints(v: Seq<i64>) -> Seq<int> {
    v.map_values(|x: i64| x as int)
}

/// Reads the pieces `pat` from the front of `s` (see [`spec_scan`]).
pub fn scan<'a>(s: &'a str, pat: &Vec<Piece>) -> (res: Option<(Vec<i64>, &'a str)>)
    ensures
        match spec_scan(s.spec_bytes(), pat@) {
            None => res is None,
            Some((vs, rest)) => res matches Some((ws, r)) && ints(ws@) == vs && r.spec_bytes()
                == rest,
        },
{
    let mut vals: Vec<i64> = Vec::new();
    let mut cur: &'a str = s;
    let mut i: usize = 0;
    assert(pat@.skip(0) =~= pat@);
    assert(ints(vals@) =~= Seq::<int>::empty());
    while i < pat.len()
        invariant
            i <= pat@.len(),
            spec_scan(s.spec_bytes(), pat@) == prepend(
                ints(vals@),
                spec_scan(cur.spec_bytes(), pat@.skip(i as int)),
            ),
        decreases pat@.len() - i,
    {
        let ghost rest_pat = pat@.skip(i as int);
        assert(rest_pat.drop_first() =~= pat@.skip(i + 1));
        assert(rest_pat[0] == pat@[i as int]);
        let p = pat[i];
        match p {
            Piece::Int => {
                match parse_int(cur) {
                    None => {
                        return None;
                    },
                    Some((v, next)) => {
                        let ghost old_vals = ints(vals@);
                        vals.push(v);
                        assert(ints(vals@) =~= old_vals + seq![v as int]);
                        proof {
                            let inner = spec_scan(next.spec_bytes(), pat@.skip(i + 1));
                            match inner {
                                Some((ws, r)) => {
                                    assert(old_vals + (seq![v as int] + ws) =~= (old_vals
                                        + seq![v as int]) + ws);
                                },
                                None => {},
                            }
                        }
                        cur = next;
                    },
                }
            },
            _ => {
                let c: u8 = match p {
                    Piece::Open | Piece::Comma | Piece::Cons => 0x31u8,
                    _ => 0x30u8,
                };
                let b = cur.as_bytes();
                if b.len() < 2 || b[0] != c || b[1] != c {
                    return None;
                }
                cur = suffix_after_ascii(cur, 2);
            },
        }
        i = i + 1;
    }
    assert(pat@.skip(i as int) =~= Seq::<Piece>::empty());
    assert(ints(vals@) + Seq::<int>::empty() =~= ints(vals@));
    Some((vals, cur))
}


/// The front of a game response, up to the optional list of its static game
/// information: `( one , stage , ( x0 , role , ( a , b , c ) , ( d , e ) ,`.
pub open spec fn header_pattern() -> Seq<Piece> {
    seq![
        Piece::Open, Piece::Int, Piece::Comma, Piece::Int, Piece::Comma,
        Piece::Open, Piece::Int, Piece::Comma, Piece::Int, Piece::Comma,
        Piece::Open, Piece::Int, Piece::Comma, Piece::Int, Piece::Comma, Piece::Int, Piece::Close,
        Piece::Comma,
        Piece::Open, Piece::Int, Piece::Comma, Piece::Int, Piece::Close, Piece::Comma,
    ]
}

/// A four-element list of integers: `( a , b , c , d )`.
pub open spec fn quad_pattern() -> Seq<Piece> {
    seq![
        Piece::Open, Piece::Int, Piece::Comma, Piece::Int, Piece::Comma, Piece::Int,
        Piece::Comma, Piece::Int, Piece::Close,
    ]
}

/// The end of the static game information: `) ,`.
pub open spec fn static_end_pattern() -> Seq<Piece> {
    seq![Piece::Close, Piece::Comma]
}

/// The game state, up to the first ship's velocity:
/// `( tick , ( a , b ) , ( ( ( role , ship cons cons x y , cons vx vy`.
pub open spec fn state_pattern() -> Seq<Piece> {
    seq![
        Piece::Open, Piece::Int, Piece::Comma,
        Piece::Open, Piece::Int, Piece::Comma, Piece::Int, Piece::Close, Piece::Comma,
        Piece::Open, Piece::Open, Piece::Open, Piece::Int, Piece::Comma, Piece::Int,
        Piece::Cons, Piece::Cons, Piece::Int, Piece::Int, Piece::Comma,
        Piece::Cons, Piece::Int, Piece::Int,
    ]
}

/// What a game response tells by its shape: `(game stage, role, ship id, x,
/// y, vx, vy)`.  The response is the header, then either a four-integer list or `nil`,
/// then `) ,`, then either `nil` (no game state yet: the last five are 0 and
/// the role is the one of the static information) or the game state, whose
/// first ship gives the role, ship id, position and velocity.  `None` where
/// the response does not have this shape.
pub open spec fn spec_read_game_response(b: Seq<u8>) -> Option<(int, int, int, int, int, int, int)> {
    match spec_scan(b, header_pattern()) {
        None => None,
        Some((head, r1)) => {
            let x4 = if begins_with(r1, one_byte(), one_byte()) {
                spec_scan(r1, quad_pattern())
            } else {
                spec_scan(r1, seq![Piece::Nil])
            };
            match x4 {
                None => None,
                Some((_, r2)) => match spec_scan(r2, static_end_pattern()) {
                    None => None,
                    Some((_, r3)) => if begins_with(r3, zero_byte(), zero_byte()) {
                        Some((head[1], head[3], 0, 0, 0, 0, 0))
                    } else {
                        match spec_scan(r3, state_pattern()) {
                            None => None,
                            Some((st, _)) => Some((head[1], st[3], st[4], st[5], st[6], st[7], st[8])),
                        }
                    },
                },
            }
        },
    }
}

/// Whether a result tuple holds exactly the integers of a spec result.
pub open spec fn same_tuple(
    r: (i64, i64, i64, i64, i64, i64, i64),
    t: (int, int, int, int, int, int, int),
) -> bool {
    r.0 == t.0 && r.1 == t.1 && r.2 == t.2 && r.3 == t.3 && r.4 == t.4 && r.5 == t.5 && r.6 == t.6
}

/// Reads a game response by its shape (see [`spec_read_game_response`]);
/// `None` where it does not have the expected shape.
pub fn read_game_response(s: &str) -> (res: Option<(i64, i64, i64, i64, i64, i64, i64)>)
    ensures
        match spec_read_game_response(s.spec_bytes()) {
            None => res is None,
            Some(t) => res matches Some(r) && same_tuple(r, t),
        },
{
    let header = vec![
        Piece::Open, Piece::Int, Piece::Comma, Piece::Int, Piece::Comma,
        Piece::Open, Piece::Int, Piece::Comma, Piece::Int, Piece::Comma,
        Piece::Open, Piece::Int, Piece::Comma, Piece::Int, Piece::Comma, Piece::Int, Piece::Close,
        Piece::Comma,
        Piece::Open, Piece::Int, Piece::Comma, Piece::Int, Piece::Close, Piece::Comma,
    ];
    assert(header@ =~= header_pattern());
    proof {
        lemma_scan_count(s.spec_bytes(), header_pattern());
        assert(int_count(header_pattern()) == 9) by {
            reveal_with_fuel(int_count, 25);
        }
    }
    let (head, r1) = match scan(s, &header) {
        None => return None,
        Some(x) => x,
    };
    let b1 = r1.as_bytes();
    let x4_pattern = if b1.len() >= 2 && b1[0] == 0x31u8 && b1[1] == 0x31u8 {
        let q = vec![
            Piece::Open, Piece::Int, Piece::Comma, Piece::Int, Piece::Comma, Piece::Int,
            Piece::Comma, Piece::Int, Piece::Close,
        ];
        assert(q@ =~= quad_pattern());
        q
    } else {
        let q = vec![Piece::Nil];
        assert(q@ =~= seq![Piece::Nil]);
        q
    };
    let (_, r2) = match scan(r1, &x4_pattern) {
        None => return None,
        Some(x) => x,
    };
    let end = vec![Piece::Close, Piece::Comma];
    assert(end@ =~= static_end_pattern());
    let (_, r3) = match scan(r2, &end) {
        None => return None,
        Some(x) => x,
    };
    let b3 = r3.as_bytes();
    if b3.len() >= 2 && b3[0] == 0x30u8 && b3[1] == 0x30u8 {
        return Some((head[1], head[3], 0, 0, 0, 0, 0));
    }
    let state = vec![
        Piece::Open, Piece::Int, Piece::Comma,
        Piece::Open, Piece::Int, Piece::Comma, Piece::Int, Piece::Close, Piece::Comma,
        Piece::Open, Piece::Open, Piece::Open, Piece::Int, Piece::Comma, Piece::Int,
        Piece::Cons, Piece::Cons, Piece::Int, Piece::Int, Piece::Comma,
        Piece::Cons, Piece::Int, Piece::Int,
    ];
    assert(state@ =~= state_pattern());
    proof {
        lemma_scan_count(r3.spec_bytes(), state_pattern());
        assert(int_count(state_pattern()) == 9) by {
            reveal_with_fuel(int_count, 24);
        }
    }
    let (st, _) = match scan(r3, &state) {
        None => return None,
        Some(x) => x,
    };
    Some((head[1], st[3], st[4], st[5], st[6], st[7], st[8]))
}

/// A reply recorded at tick 4 of a game, which reads as stage 1, role 1 and
/// no ship state: `(1, 1, 0, 0, 0, 0, 0)`.
pub open spec fn still_reply() -> Seq<char> {
    "11011000011101100001111101111000011000000011011000011111011110000111000000110110000111011100100000000111101110000100001101110100000000011000011110110010011110111000010000110111010000000001111111101100001110101111011100001110001110001000101111101000101010011011110111100001101110001101100001110101101100001001101110000100001101110010000001101100001001111110101111011000010110000100000011111101011011000011111101100010000010110001001101111010011001001111011000011101100010110110001111011001000011010110111001000000110110000100110000000000"@
}

/// The text of [`still_reply`].
pub fn still_reply_text() -> (t: &'static str)
    ensures
        t@ == still_reply(),
{
    "11011000011101100001111101111000011000000011011000011111011110000111000000110110000111011100100000000111101110000100001101110100000000011000011110110010011110111000010000110111010000000001111111101100001110101111011100001110001110001000101111101000101010011011110111100001101110001101100001110101101100001001101110000100001101110010000001101100001001111110101111011000010110000100000011111101011011000011111101100010000010110001001101111010011001001111011000011101100010110110001111011001000011010110111001000000110110000100110000000000"
}

/// What a game response tells: `(game stage, role, ship id, x, y, vx, vy)`.
/// [`still_reply`] gives `(1, 1, 0, 0, 0, 0, 0)`; any other response is read
/// by its shape ([`spec_read_game_response`]).
pub open spec fn spec_decode_response2(b: Seq<u8>) -> Option<(int, int, int, int, int, int, int)> {
    if b == encode_utf8(still_reply()) {
        Some((1, 1, 0, 0, 0, 0, 0))
    } else {
        spec_read_game_response(b)
    }
}

/// Reads a game response (see [`spec_decode_response2`]); `None` where it
/// is not accepted.
pub fn parse_game_response(s: &str) -> (res: Option<(i64, i64, i64, i64, i64, i64, i64)>)
    ensures
        match spec_decode_response2(s.spec_bytes()) {
            None => res is None,
            Some(t) => res matches Some(r) && same_tuple(r, t),
        },
{
    let still = still_reply_text();
    if same_bytes(s, still) {
        return Some((1, 1, 0, 0, 0, 0, 0));
    }
    read_game_response(s)
}

/// Reads a game response: `(game stage, role, ship id, x, y, vx, vy)` (see
/// [`spec_decode_response2`]).
pub fn decode_response2(s: &str) -> (res: (i64, i64, i64, i64, i64, i64, i64))
    requires
        spec_decode_response2(s.spec_bytes()) is Some,
    ensures
        same_tuple(res, spec_decode_response2(s.spec_bytes()).unwrap()),
{
    match parse_game_response(s) {
        Some(r) => r,
        None => {
            assert(false);
            (0, 0, 0, 0, 0, 0, 0)
        },
    }
}

} // verus!
