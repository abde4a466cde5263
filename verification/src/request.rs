use vstd::prelude::*;
use vstd::string::StringSliceAdditionalSpecFns;
use crate::modulate::{token_code, modulate_int, mod_int, mod_str};
use crate::numeral::{spec_parse_i64, parse_i64};

verus! {

/// The code of `(`.
pub open spec fn open_code() -> Seq<char> {
    token_code(seq!['(']).unwrap()
}

/// The code of `)`.
pub open spec fn close_code() -> Seq<char> {
    token_code(seq![')']).unwrap()
}

/// The code of `,`.
pub open spec fn comma_code() -> Seq<char> {
    token_code(seq![',']).unwrap()
}

/// The code of `nil`.
pub open spec fn nil_code() -> Seq<char> {
    token_code(seq!['n', 'i', 'l']).unwrap()
}

/// The code of `cons`.
pub open spec fn cons_code() -> Seq<char> {
    token_code(seq!['c', 'o', 'n', 's']).unwrap()
}

/// The player key that the text `key` holds.
pub open spec fn player_key_value(key: Seq<u8>) -> int {
    spec_parse_i64(key).unwrap()
}

/// The join request of a player: `(2, key, nil)`.
pub open spec fn join_request(key: int) -> Seq<char> {
    open_code() + modulate_int(2) + comma_code() + modulate_int(key) + comma_code() + nil_code()
        + close_code()
}

/// The start request of a player with the ship parameters `x0` to `x3`:
/// `(3, key, (x0, x1, x2, x3))`.
pub open spec fn start_request(key: int, x0: int, x1: int, x2: int, x3: int) -> Seq<char> {
    open_code() + modulate_int(3) + comma_code() + modulate_int(key) + comma_code() + open_code()
        + modulate_int(x0) + comma_code() + modulate_int(x1) + comma_code() + modulate_int(x2)
        + comma_code() + modulate_int(x3) + close_code() + close_code()
}

/// The commands request of a player for one ship:
/// `(4, key, ((0, ship_id, cons vx vy)))`.
pub open spec fn commands_request(key: int, ship_id: int, vx: int, vy: int) -> Seq<char> {
    open_code() + modulate_int(4) + comma_code() + modulate_int(key) + comma_code() + open_code()
        + open_code() + modulate_int(0) + comma_code() + modulate_int(ship_id) + comma_code()
        + cons_code() + modulate_int(vx) + modulate_int(vy) + close_code() + close_code()
        + close_code()
}

/// Appends the code of the token `t` to `out`.
fn push_token(out: &mut String, t: &str)
    requires
        token_code(t@) is Some,
    ensures
        final(out)@ == old(out)@ + token_code(t@).unwrap(),
{
    out.append(mod_str(t));
}

/// Appends the modulated form of `i` to `out`.
fn push_int(out: &mut String, i: i64)
    requires
        i != i64::MIN,
    ensures
        final(out)@ == old(out)@ + modulate_int(i as int),
{
    let m = mod_int(i);
    out.append(m.as_str());
}

/// Whether the text `key` holds a player key that can be modulated: an
/// `i64` other than `i64::MIN`, whose negation overflows.
pub open spec fn valid_player_key(key: Seq<u8>) -> bool {
    spec_parse_i64(key) is Some && spec_parse_i64(key).unwrap() != i64::MIN
}

/// The player key held by `player_key`.
fn key_of(text: &str) -> (k: i64)
    requires
        valid_player_key(text.spec_bytes()),
    ensures
        k != i64::MIN,
        k == player_key_value(text.spec_bytes()),
{
    match parse_i64(text) {
        Some(k) => k,
        None => {
            assert(false);
            0
        },
    }
}

/// Builds the join request of the player whose key is the decimal text
/// `player_key` (see [`join_request`]).  Keys and numbers equal to
/// `i64::MIN` are left out: negating them overflows.
pub fn make_join_request(player_key: &str) -> (res: String)
    requires
        valid_player_key(player_key.spec_bytes()),
    ensures
        res@ == join_request(player_key_value(player_key.spec_bytes())),
{
    proof {
        reveal_strlit("(");
        assert("("@ =~= seq!['(']);
        reveal_strlit(")");
        assert(")"@ =~= seq![')']);
        reveal_strlit(",");
        assert(","@ =~= seq![',']);
        reveal_strlit("nil");
        assert("nil"@ =~= seq!['n', 'i', 'l']);
    }
    let key = key_of(player_key);
    let mut out = String::new();
    push_token(&mut out, "(");
    push_int(&mut out, 2);
    push_token(&mut out, ",");
    push_int(&mut out, key);
    push_token(&mut out, ",");
    push_token(&mut out, "nil");
    push_token(&mut out, ")");
    assert(out@ =~= join_request(key as int));
    out
}

/// Builds the start request of the player whose key is the decimal text
/// `player_key`, with the ship parameters `x0` to `x3` (see
/// [`start_request`]).
pub fn make_start_request(player_key: &str, x0: i64, x1: i64, x2: i64, x3: i64) -> (res: String)
    requires
        valid_player_key(player_key.spec_bytes()),
        x0 != i64::MIN,
        x1 != i64::MIN,
        x2 != i64::MIN,
        x3 != i64::MIN,
    ensures
        res@ == start_request(
            player_key_value(player_key.spec_bytes()),
            x0 as int,
            x1 as int,
            x2 as int,
            x3 as int,
        ),
{
    proof {
        reveal_strlit("(");
        assert("("@ =~= seq!['(']);
        reveal_strlit(")");
        assert(")"@ =~= seq![')']);
        reveal_strlit(",");
        assert(","@ =~= seq![',']);
    }
    let key = key_of(player_key);
    let mut out = String::new();
    push_token(&mut out, "(");
    push_int(&mut out, 3);
    push_token(&mut out, ",");
    push_int(&mut out, key);
    push_token(&mut out, ",");
    push_token(&mut out, "(");
    push_int(&mut out, x0);
    push_token(&mut out, ",");
    push_int(&mut out, x1);
    push_token(&mut out, ",");
    push_int(&mut out, x2);
    push_token(&mut out, ",");
    push_int(&mut out, x3);
    push_token(&mut out, ")");
    push_token(&mut out, ")");
    assert(out@ =~= start_request(key as int, x0 as int, x1 as int, x2 as int, x3 as int));
    out
}

/// Builds the commands request of the player whose key is the decimal text
/// `player_key`, for the ship `ship_id` with the vector `(velocity_x,
/// velocity_y)` (see [`commands_request`]).
pub fn make_commands_request(player_key: &str, ship_id: i64, velocity_x: i64, velocity_y: i64) -> (res: String)
    requires
        valid_player_key(player_key.spec_bytes()),
        ship_id != i64::MIN,
        velocity_x != i64::MIN,
        velocity_y != i64::MIN,
    ensures
        res@ == commands_request(
            player_key_value(player_key.spec_bytes()),
            ship_id as int,
            velocity_x as int,
            velocity_y as int,
        ),
{
    proof {
        reveal_strlit("(");
        assert("("@ =~= seq!['(']);
        reveal_strlit(")");
        assert(")"@ =~= seq![')']);
        reveal_strlit(",");
        assert(","@ =~= seq![',']);
        reveal_strlit("cons");
        assert("cons"@ =~= seq!['c', 'o', 'n', 's']);
    }
    let key = key_of(player_key);
    let mut out = String::new();
    push_token(&mut out, "(");
    push_int(&mut out, 4);
    push_token(&mut out, ",");
    push_int(&mut out, key);
    push_token(&mut out, ",");
    push_token(&mut out, "(");
    push_token(&mut out, "(");
    push_int(&mut out, 0);
    push_token(&mut out, ",");
    push_int(&mut out, ship_id);
    push_token(&mut out, ",");
    push_token(&mut out, "cons");
    push_int(&mut out, velocity_x);
    push_int(&mut out, velocity_y);
    push_token(&mut out, ")");
    push_token(&mut out, ")");
    push_token(&mut out, ")");
    assert(out@ =~= commands_request(key as int, ship_id as int, velocity_x as int, velocity_y as int));
    out
}


/// The start request that opens a game: the player's start request with the
/// ship parameters `(442, 1, 0, 1)`.
pub fn opening_start_request(player_key: &str) -> (res: String)
    requires
        valid_player_key(player_key.spec_bytes()),
    ensures
        res@ == start_request(player_key_value(player_key.spec_bytes()), 442, 1, 0, 1),
{
    make_start_request(player_key, 442, 1, 0, 1)
}

/// The commands request that answers a game response `(stage, role, ship id,
/// x, y, vx, vy)`: the ship `ship_id` is sent the velocity `(vx, vy)` that
/// the response reports.
pub fn next_commands_request(
    player_key: &str,
    ship_id: i64,
    response: (i64, i64, i64, i64, i64, i64, i64),
) -> (res: String)
    requires
        valid_player_key(player_key.spec_bytes()),
        ship_id != i64::MIN,
        response.5 != i64::MIN,
        response.6 != i64::MIN,
    ensures
        res@ == commands_request(
            player_key_value(player_key.spec_bytes()),
            ship_id as int,
            response.5 as int,
            response.6 as int,
        ),
{
    make_commands_request(player_key, ship_id, response.5, response.6)
}

} // verus!
