use alien_codec::demodulate::decode_response;
use alien_codec::modulate::{mod_int, mod_str};
use alien_codec::response::decode_response2;

#[test]
fn test0() {
    assert_eq!(mod_int(0), "010");
}

#[test]
fn test1() {
    assert_eq!(mod_int(1), "01100001");
}

#[test]
fn test15() {
    assert_eq!(mod_int(15), "01101111");
}

#[test]
fn testminus1() {
    assert_eq!(mod_int(-1), "10100001");
}

#[test]
fn test2() {
    assert_eq!(mod_int(2), "01100010");
}

#[test]
fn test256() {
    assert_eq!(mod_int(256), "011110000100000000");
}

#[test]
fn start() {
    assert_eq!(
        format!(
            "{}{}{}{}{}{}{}{}{}{}{}{}{}{}{}",
            mod_str("("),
            mod_int(3),
            mod_str(","),
            mod_int("10000".parse().unwrap()),
            mod_str(","),
            mod_str("("),
            mod_int(1),
            mod_str(","),
            mod_int(1),
            mod_str(","),
            mod_int(1),
            mod_str(","),
            mod_int(1),
            mod_str(")"),
            mod_str(")")
        ),
        "110110001111011111000100111000100001111011000011101100001110110000111011000010000"
    )
}

#[test]
fn join() {
    assert_eq!(
        format!(
            "{}{}{}{}{}{}{}",
            mod_str("("),
            mod_int(2),
            mod_str(","),
            mod_int("10000".parse().unwrap()),
            mod_str(","),
            mod_str("nil"),
            mod_str(")")
        ),
        "11011000101101111100010011100010000110000"
    )
}

#[test]
fn decode_test() {
    assert_eq!(
        decode_response("11011000011101100001111101111000010000000011011000011111011110000111000000110110000111011100100000000111101110000100001101110100000000011000011110110001011110111000010000110111010000000001111111101100001110101111101010011011000101110111110100001011000011111011110000110111001110110000111010110110000100110110100011011100100000011011000010011111101011110110000101100001000000111111010110110000111110110100001110001100001111010010111101110111111101101101010110110101011011000010011010110111001000000110110000100111111010111101010100001000000000000"),
        "(1(1((256(1((448(1(64nil((16(128nil(nilnil((2((16(128nil((((1(0((-9-46((-11((441(1(0(1nil(8(64(1nil(((0((11nilnilnil(((0(1((848((00((254))))))))))))))))))))))))))))))))))))))))))))))))))".to_owned()
    )
}

#[test]
fn decode_response2_test() {
    assert_eq!(
        decode_response2("11011000011101100001111101111000011000000011011000011111011110000111000000110110000111011100100000000111101110000100001101110100000000011000011110110010011110111000010000110111010000000001111111101100001110101111011100001110001110001000101111101000101010011011110111100001101110001101100001110101101100001001101110000100001101110010000001101100001001111110101111011000010110000100000011111101011011000011111101100010000010110001001101111010011001001111011000011101100010110110001111011001000011010110111001000000110110000100110000000000"), (1,1,0,0,0,0,0)
    );
}

#[test]
fn decode_response_test2() {
    assert_eq!(
        decode_response("110110000111011000011111011110000110000000110110000111110111100001110000001101100001110111001000000001111011100001000011011101000000000110000111101011110111000010000110111010000000001111111101100001110101111011100010000001110001100001111010010111101111000011011101011011000011101011011000010011010110111001000000110110000100110000111111010110110000111111011000100000101100011000011110100101111011000011101100010110110001111011001000011010110111001000000110110000100110000000000"), ""
    );
}
