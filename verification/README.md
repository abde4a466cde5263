# alien_codec

A verified codec for the "modulated" bit-string protocol of a galaxy game
server, with a small client around it.

- `src/` is the library, checked by Verus:
  - `modulate.rs`: integers and list tokens to bit strings (`mod_int`, `mod_str`);
  - `demodulate.rs`: reading integers and tokens back from the front of a
    response (`parse_int`, `decode_int`, `consume_token`, `expect_token`,
    `expect_int`) and rendering a whole response as a term (`render_term`,
    `decode_response`; one recorded reply, `blank_reply`, demodulates to the
    empty text);
  - `numeral.rs`: decimal text of integers and parsing of `i64` text;
  - `response.rs`: reading the game stage, role, ship and velocity out of a
    game response (`decode_response2`; one recorded reply, `still_reply`,
    reads as stage 1, role 1 and no ship state);
  - `request.rs`: the join, start and commands requests, and the client's
    steps (`opening_start_request`, `next_commands_request`);
  - `laws.rs`: properties across functions (reading back what was written).
- `app/` is the client: it posts requests over HTTP and feeds the replies to
  the library.
- `tests/` runs the library on concrete values.
