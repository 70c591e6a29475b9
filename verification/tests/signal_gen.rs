//! The no-ROM signal generator: exact names, the ADC I/Q override, and
//! the tiling of the data bits, plus the text helpers it leans on.

use sump_ila::fmt::{dec_string, hex8_string, trim_trailing, utf8_lossy_string};
use sump_ila::signals::generate_norom_signals;

#[test]
fn dwords_split_thirty_three_bits() {
    let (mode, sigs) = generate_norom_signals("sigs        ", 33, true, false, false, false, true);
    assert_eq!(mode, "dwords");
    assert_eq!(sigs.len(), 2);
    assert_eq!(sigs[0].name, "sigs_d0[31:0]");
    assert_eq!(sigs[0].bit_low, 0);
    assert_eq!(sigs[0].bit_high, 31);
    assert_eq!(sigs[0].signal_type, "analog");
    assert_eq!(sigs[1].name, "sigs_d1[32:32]");
    assert_eq!(sigs[1].bit_low, 32);
    assert_eq!(sigs[1].bit_high, 32);
    assert_eq!(sigs[1].signal_type, "analog");
}

#[test]
fn one_dword_window_uses_the_bare_name() {
    let (mode, sigs) = generate_norom_signals("x", 8, true, false, false, false, false);
    assert_eq!(mode, "dwords");
    assert_eq!(sigs.len(), 1);
    assert_eq!(sigs[0].name, "x[7:0]");
    assert_eq!(sigs[0].signal_type, "vector");
}

#[test]
fn words_view_splits_on_sixteen() {
    let (mode, sigs) = generate_norom_signals("w", 33, false, true, false, false, false);
    assert_eq!(mode, "words");
    assert_eq!(sigs.len(), 3);
    assert_eq!(sigs[0].name, "w_w0[15:0]");
    assert_eq!(sigs[1].name, "w_w1[31:16]");
    assert_eq!(sigs[2].name, "w_w2[32:32]");
}

#[test]
fn bytes_view_is_always_vector_and_always_tagged() {
    let (mode, sigs) = generate_norom_signals("b", 8, false, false, true, false, true);
    assert_eq!(mode, "bytes");
    assert_eq!(sigs.len(), 1);
    assert_eq!(sigs[0].name, "b_b0[7:0]");
    assert_eq!(sigs[0].signal_type, "vector");
}

#[test]
fn bits_view_lists_every_bit() {
    let (mode, sigs) = generate_norom_signals("t", 3, false, false, false, true, false);
    assert_eq!(mode, "bits");
    assert_eq!(sigs.len(), 3);
    assert_eq!(sigs[1].name, "t[1]");
    assert_eq!(sigs[1].bit_low, 1);
    assert_eq!(sigs[1].bit_high, 1);
    assert_eq!(sigs[2].signal_type, "bit");
}

#[test]
fn no_flag_defaults_to_dwords() {
    let (mode, sigs) = generate_norom_signals("d", 64, false, false, false, false, false);
    assert_eq!(mode, "dwords");
    assert_eq!(sigs.len(), 2);
    assert_eq!(sigs[1].name, "d_d1[63:32]");
}

#[test]
fn adc_iq_override() {
    let (mode, sigs) = generate_norom_signals("adc_iq      ", 25, true, false, false, false, false);
    assert_eq!(mode, "iq");
    assert_eq!(sigs.len(), 3);
    assert_eq!(sigs[0].name, "adc_i[11:0]");
    assert_eq!(sigs[0].bit_high, 11);
    assert_eq!(sigs[0].bit_low, 0);
    assert_eq!(sigs[0].signal_type, "analog");
    assert_eq!(sigs[1].name, "adc_q[11:0]");
    assert_eq!(sigs[1].bit_high, 23);
    assert_eq!(sigs[1].bit_low, 12);
    assert_eq!(sigs[1].signal_type, "analog");
    assert_eq!(sigs[2].name, "adc_valid");
    assert_eq!(sigs[2].bit_high, 24);
    assert_eq!(sigs[2].bit_low, 24);
    assert_eq!(sigs[2].signal_type, "bit");
}

#[test]
fn adc_iq_needs_enough_bits() {
    let (mode, sigs) = generate_norom_signals("adc_iq", 24, true, false, false, false, false);
    assert_eq!(mode, "dwords");
    assert_eq!(sigs.len(), 1);
    assert_eq!(sigs[0].name, "adc_iq[23:0]");
}

#[test]
fn signals_tile_the_data_bits() {
    let flag_sets = [
        (true, false, false, false),
        (false, true, false, false),
        (false, false, true, false),
        (false, false, false, true),
        (false, false, false, false),
    ];
    for &db in &[1u16, 8, 16, 33, 64, 65] {
        for &(vd, vw, vb, vbits) in &flag_sets {
            for &rle in &[false, true] {
                let (_, sigs) = generate_norom_signals("n", db, vd, vw, vb, vbits, rle);
                assert!(!sigs.is_empty());
                assert_eq!(sigs[0].bit_low, 0);
                assert_eq!(sigs[sigs.len() - 1].bit_high, db - 1);
                for (i, s) in sigs.iter().enumerate() {
                    assert!(s.bit_low <= s.bit_high);
                    assert!(s.bit_high < db);
                    if i > 0 {
                        assert_eq!(s.bit_low, sigs[i - 1].bit_high + 1);
                    }
                }
            }
        }
    }
}

#[test]
fn decimal_rendering() {
    assert_eq!(dec_string(0), "0");
    assert_eq!(dec_string(7), "7");
    assert_eq!(dec_string(100000), "100000");
    assert_eq!(dec_string(u32::MAX), "4294967295");
}

#[test]
fn hexadecimal_rendering() {
    assert_eq!(hex8_string(0), "00000000");
    assert_eq!(hex8_string(0xDEAD_BEEF), "DEADBEEF");
    assert_eq!(hex8_string(0x43C2_0000), "43C20000");
}

#[test]
fn trimming_drops_trailing_padding_only() {
    assert_eq!(trim_trailing("  name\0 \t"), "  name");
    assert_eq!(trim_trailing(" \0\t\r\n"), "");
    assert_eq!(trim_trailing(""), "");
    assert_eq!(trim_trailing("a b"), "a b");
}

#[test]
fn lossy_decoding_matches_the_standard_library() {
    let cases: Vec<Vec<u8>> = vec![
        b"plain ascii".to_vec(),
        vec![],
        vec![0x68, 0xC3, 0xA9],                    // a valid two-byte character survives
        vec![0xE2, 0x82, 0xAC, 0x21],              // three-byte character
        vec![0xF0, 0x9F, 0x92, 0x96],              // four-byte character
        vec![0xFF],                                // lone invalid byte
        vec![0x68, 0xFF, 0x62, 0x30],
        vec![0x80, 0x80],                          // stray continuations
        vec![0xC0, 0x80],                          // overlong two-byte lead
        vec![0xC3],                                // truncated two-byte
        vec![0xC3, 0x28],                          // two-byte lead, bad continuation
        vec![0xE0, 0x80, 0x80],                    // overlong three-byte
        vec![0xE0, 0xA0],                          // truncated three-byte
        vec![0xE0, 0xA0, 0x41],                    // three-byte cut short by ASCII
        vec![0xED, 0xA0, 0x80],                    // surrogate range
        vec![0xF0, 0x80, 0x80, 0x80],              // overlong four-byte
        vec![0xF0, 0x90, 0x80],                    // truncated four-byte
        vec![0xF0, 0x90, 0x80, 0x41],              // four-byte cut short by ASCII
        vec![0xF4, 0x90, 0x80, 0x80],              // above the scalar range
        vec![0xF5, 0x80, 0x80, 0x80],              // invalid lead
        vec![0x61, 0xE2, 0x82, 0x61, 0xAC],        // mixed
    ];
    for bytes in cases {
        let expected: String = String::from_utf8_lossy(&bytes).into_owned();
        assert_eq!(utf8_lossy_string(&bytes), expected, "bytes {:02X?}", bytes);
    }
}
