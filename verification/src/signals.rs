//! The no-ROM signal generator: slices a pod's data bits into displayed
//! signals according to the pod's view flags, with a fixed layout for
//! the ADC I/Q pods.

use vstd::arithmetic::div_mod::{lemma_fundamental_div_mod, lemma_mod_bound};
use vstd::prelude::*;
use vstd::string::StringExecFns;

use crate::fmt::{contains_chars, dec_chars, dec_string, str_contains, trim_back_chars,
    trim_trailing};
use crate::records::{SignalInfo, SignalInfoV};

verus! {

/// The name a signal list is built around: the pod name with its
/// trailing padding trimmed.
pub open spec fn name_field(s: Seq<char>) -> Seq<char> {
    trim_back_chars(s)
}

/// Whether a pod gets the fixed ADC I/Q layout: its trimmed name holds
/// both `adc` and `iq`, and it carries at least the 25 bits the layout
/// spans.
pub open spec fn is_adc_iq(base: Seq<char>, data_bits: u16) -> bool {
    contains_chars(base, "adc"@) && contains_chars(base, "iq"@) && data_bits >= 25
}

/// Count of windows of `w` bits covering `db` bits.
pub open spec fn window_count(db: int, w: int) -> int {
    (db + w - 1) / w
}

/// Top bit of window `i`: the window's last bit, capped by the data
/// width.
pub open spec fn window_hi(db: int, w: int, i: int) -> int {
    if (i + 1) * w - 1 <= db - 1 {
        (i + 1) * w - 1
    } else {
        db - 1
    }
}

/// The display name of window `i`: the bare name with its bit range
/// when one untagged window covers everything, else the name, the
/// window tag and index, and the bit range.
pub open spec fn window_sig_name(
    base: Seq<char>,
    tag: Seq<char>,
    always_tag: bool,
    n: int,
    i: int,
    hi: int,
    lo: int,
) -> Seq<char> {
    if n == 1 && !always_tag {
        base + "["@ + dec_chars(hi as nat) + ":0]"@
    } else {
        base + tag + dec_chars(i as nat) + "["@ + dec_chars(hi as nat) + ":"@ + dec_chars(
            lo as nat,
        ) + "]"@
    }
}

/// The signals of a windowed view: `db` bits cut into windows of `w`
/// bits, the last window short when `w` does not divide `db`.
pub open spec fn spec_window_signals(
    base: Seq<char>,
    db: u16,
    w: u16,
    tag: Seq<char>,
    always_tag: bool,
    stype: Seq<char>,
) -> Seq<SignalInfoV> {
    let n = window_count(db as int, w as int);
    Seq::new(
        n as nat,
        |i: int|
            SignalInfoV {
                name: window_sig_name(
                    base,
                    tag,
                    always_tag,
                    n,
                    i,
                    window_hi(db as int, w as int, i),
                    i * (w as int),
                ),
                bit_high: window_hi(db as int, w as int, i) as u16,
                bit_low: (i * (w as int)) as u16,
                signal_type: stype,
            },
    )
}

/// The signals of the bit view: one single-bit signal per data bit.
pub open spec fn spec_bit_signals(base: Seq<char>, db: u16) -> Seq<SignalInfoV> {
    Seq::new(
        db as nat,
        |i: int|
            SignalInfoV {
                name: base + "["@ + dec_chars(i as nat) + "]"@,
                bit_high: i as u16,
                bit_low: i as u16,
                signal_type: "bit"@,
            },
    )
}

/// The fixed ADC I/Q layout: the two 12-bit analog channels and the
/// valid bit above them.
pub open spec fn spec_iq_signals() -> Seq<SignalInfoV> {
    seq![
        SignalInfoV { name: "adc_i[11:0]"@, bit_high: 11u16, bit_low: 0u16, signal_type: "analog"@ },
        SignalInfoV {
            name: "adc_q[11:0]"@,
            bit_high: 23u16,
            bit_low: 12u16,
            signal_type: "analog"@,
        },
        SignalInfoV { name: "adc_valid"@, bit_high: 24u16, bit_low: 24u16, signal_type: "bit"@ },
    ]
}

/// View mode and signal list of a pod without a view ROM. The view
/// mode is the first set flag in the order dwords, words, bytes, bits,
/// defaulting to dwords; the common signal type is analog exactly when
/// RLE is disabled, except that the byte view is always vector and the
/// bit view always bit. The ADC I/Q layout overrides everything.
pub open spec fn spec_norom(
    base: Seq<char>,
    db: u16,
    vd: bool,
    vw: bool,
    vb: bool,
    vbits: bool,
    rle: bool,
) -> (Seq<char>, Seq<SignalInfoV>) {
    if is_adc_iq(base, db) {
        ("iq"@, spec_iq_signals())
    } else {
        let stype = if rle {
            "analog"@
        } else {
            "vector"@
        };
        if vd {
            ("dwords"@, spec_window_signals(base, db, 32, "_d"@, false, stype))
        } else if vw {
            ("words"@, spec_window_signals(base, db, 16, "_w"@, false, stype))
        } else if vb {
            ("bytes"@, spec_window_signals(base, db, 8, "_b"@, true, "vector"@))
        } else if vbits {
            ("bits"@, spec_bit_signals(base, db))
        } else {
            ("dwords"@, spec_window_signals(base, db, 32, "_d"@, false, stype))
        }
    }
}

/// A windowed view tiles the data bits: the first window starts at bit
/// 0, each next window starts right above its predecessor, and the
/// last ends at the top data bit.
proof fn lemma_window_tile(base: Seq<char>, db: u16, w: u16, tag: Seq<char>, at: bool, st: Seq<char>)
    requires
        db >= 1,
        w == 32 || w == 16 || w == 8,
    ensures
        ({
            let sigs = spec_window_signals(base, db, w, tag, at, st);
            sigs.len() >= 1 && sigs[0].bit_low == 0 && sigs[sigs.len() - 1].bit_high == db - 1 && (
            forall|i: int|
                0 <= i < sigs.len() ==> (#[trigger] sigs[i]).bit_low <= sigs[i].bit_high < db) && (
            forall|i: int|
                1 <= i < sigs.len() ==> (#[trigger] sigs[i]).bit_low == sigs[i - 1].bit_high + 1)
        }),
{
    let dbi = db as int;
    let wi = w as int;
    let n = window_count(dbi, wi);
    lemma_fundamental_div_mod(dbi + wi - 1, wi);
    lemma_mod_bound(dbi + wi - 1, wi);
    assert(wi * n >= dbi);
    assert(wi * n <= dbi + wi - 1);
    assert(n >= 1) by (nonlinear_arith)
        requires
            wi * n >= dbi,
            dbi >= 1,
            wi >= 1,
    ;
    let sigs = spec_window_signals(base, db, w, tag, at, st);
    assert forall|i: int| 0 <= i < n implies (#[trigger] sigs[i]).bit_low == i * wi && sigs[i].bit_high
        == window_hi(dbi, wi, i) && i * wi + wi - 1 >= window_hi(dbi, wi, i) >= i * wi && window_hi(
        dbi,
        wi,
        i,
    ) <= dbi - 1 by {
        assert((i + 1) * wi == i * wi + wi) by (nonlinear_arith);
        assert(i * wi <= (n - 1) * wi) by (nonlinear_arith)
            requires
                i <= n - 1,
                wi >= 1,
        ;
        assert((n - 1) * wi == n * wi - wi) by (nonlinear_arith);
        assert(wi * n == n * wi) by (nonlinear_arith);
        assert(i * wi <= dbi - 1);
    }
    assert(sigs[0].bit_low == 0) by {
        assert(0 * wi == 0) by (nonlinear_arith);
    }
    assert(sigs[n - 1].bit_high == db - 1) by {
        assert(n * wi == (n - 1 + 1) * wi) by (nonlinear_arith);
        assert(wi * n == n * wi) by (nonlinear_arith);
        assert((n - 1 + 1) * wi - 1 >= dbi - 1);
    }
    assert forall|i: int| 1 <= i < n implies (#[trigger] sigs[i]).bit_low == sigs[i - 1].bit_high
        + 1 by {
        assert((i - 1 + 1) * wi == i * wi) by (nonlinear_arith);
        assert(i * wi <= (n - 1) * wi) by (nonlinear_arith)
            requires
                i <= n - 1,
                wi >= 1,
        ;
        assert((n - 1) * wi == n * wi - wi) by (nonlinear_arith);
        assert(wi * n == n * wi) by (nonlinear_arith);
        assert(window_hi(dbi, wi, i - 1) == i * wi - 1);
    }
}

/// The signals generated for a pod without the ADC I/Q layout tile
/// `[0, data_bits)` with no gaps and no overlaps, whatever the view
/// flags: the first starts at bit 0, each next one starts right above
/// its predecessor's top bit, and the last ends at `data_bits - 1`.
pub proof fn lemma_norom_signals_tile(
    base: Seq<char>,
    db: u16,
    vd: bool,
    vw: bool,
    vb: bool,
    vbits: bool,
    rle: bool,
)
    requires
        db >= 1,
        !is_adc_iq(base, db),
    ensures
        ({
            let sigs = spec_norom(base, db, vd, vw, vb, vbits, rle).1;
            sigs.len() >= 1 && sigs[0].bit_low == 0 && sigs[sigs.len() - 1].bit_high == db - 1 && (
            forall|i: int|
                0 <= i < sigs.len() ==> (#[trigger] sigs[i]).bit_low <= sigs[i].bit_high < db) && (
            forall|i: int|
                1 <= i < sigs.len() ==> (#[trigger] sigs[i]).bit_low == sigs[i - 1].bit_high + 1)
        }),
{
    let stype = if rle {
        "analog"@
    } else {
        "vector"@
    };
    if vd {
        lemma_window_tile(base, db, 32, "_d"@, false, stype);
    } else if vw {
        lemma_window_tile(base, db, 16, "_w"@, false, stype);
    } else if vb {
        lemma_window_tile(base, db, 8, "_b"@, true, "vector"@);
    } else if vbits {
    } else {
        lemma_window_tile(base, db, 32, "_d"@, false, stype);
    }
}

/// Builds the signals of one windowed view.
fn window_signals(base: &str, data_bits: u16, w: u16, tag: &str, always_tag: bool, stype: &str) -> (r:
    Vec<SignalInfo>)
    requires
        w == 32 || w == 16 || w == 8,
    ensures
        r@.map_values(|s: SignalInfo| s@) == spec_window_signals(
            base@,
            data_bits,
            w,
            tag@,
            always_tag,
            stype@,
        ),
{
    let db: u32 = data_bits as u32;
    let wu: u32 = w as u32;
    let n: u32 = (db + wu - 1) / wu;
    let ghost target = spec_window_signals(base@, data_bits, w, tag@, always_tag, stype@);
    proof {
        assert(n as int == window_count(data_bits as int, w as int));
        lemma_fundamental_div_mod(db as int + wu - 1, wu as int);
        lemma_mod_bound(db as int + wu - 1, wu as int);
    }
    let mut sigs: Vec<SignalInfo> = Vec::new();
    let mut i: u32 = 0;
    let mut lo: u32 = 0;
    while i < n
        invariant
            target == spec_window_signals(base@, data_bits, w, tag@, always_tag, stype@),
            w == 32 || w == 16 || w == 8,
            db == data_bits as u32,
            wu == w as u32,
            n as int == window_count(db as int, wu as int),
            (n as int) * (wu as int) <= db + wu - 1,
            db <= (n as int) * (wu as int),
            i <= n,
            lo as int == (i as int) * (wu as int),
            sigs@.len() == i as nat,
            forall|k: int| 0 <= k < i ==> (#[trigger] sigs@[k])@ == target[k],
        decreases n - i,
    {
        proof {
            assert((i as int + 1) * (wu as int) == (i as int) * (wu as int) + wu as int)
                by (nonlinear_arith);
            assert((i as int + 1) * (wu as int) <= (n as int) * (wu as int)) by (nonlinear_arith)
                requires
                    i as int + 1 <= n as int,
                    wu as int >= 1,
            ;
        }
        let hi: u32 = if lo + wu - 1 <= db - 1 {
            lo + wu - 1
        } else {
            db - 1
        };
        let mut name = base.to_owned();
        if n == 1 && !always_tag {
            name.append("[");
            name.append(dec_string(hi).as_str());
            name.append(":0]");
        } else {
            name.append(tag);
            name.append(dec_string(i).as_str());
            name.append("[");
            name.append(dec_string(hi).as_str());
            name.append(":");
            name.append(dec_string(lo).as_str());
            name.append("]");
        }
        let sig = SignalInfo {
            name,
            bit_high: hi as u16,
            bit_low: lo as u16,
            signal_type: String::from_str(stype),
        };
        proof {
            assert(sig@ =~= target[i as int]);
        }
        sigs.push(sig);
        i = i + 1;
        lo = lo + wu;
    }
    proof {
        assert forall|k: int| 0 <= k < target.len() implies sigs@.map_values(|s: SignalInfo| s@)[k]
            == target[k] by {
            assert(sigs@[k]@ == target[k]);
        }
        assert(sigs@.map_values(|s: SignalInfo| s@) =~= target);
    }
    sigs
}

/// Builds the signals of the bit view.
fn bit_signals(base: &str, data_bits: u16) -> (r: Vec<SignalInfo>)
    ensures
        r@.map_values(|s: SignalInfo| s@) == spec_bit_signals(base@, data_bits),
{
    let ghost target = spec_bit_signals(base@, data_bits);
    let mut sigs: Vec<SignalInfo> = Vec::new();
    let mut i: u32 = 0;
    let n: u32 = data_bits as u32;
    while i < n
        invariant
            target == spec_bit_signals(base@, data_bits),
            n == data_bits as u32,
            i <= n,
            sigs@.len() == i as nat,
            forall|k: int| 0 <= k < i ==> (#[trigger] sigs@[k])@ == target[k],
        decreases n - i,
    {
        let mut name = base.to_owned();
        name.append("[");
        name.append(dec_string(i).as_str());
        name.append("]");
        let sig = SignalInfo {
            name,
            bit_high: i as u16,
            bit_low: i as u16,
            signal_type: String::from_str("bit"),
        };
        proof {
            assert(sig@ =~= target[i as int]);
        }
        sigs.push(sig);
        i = i + 1;
    }
    proof {
        assert forall|k: int| 0 <= k < target.len() implies sigs@.map_values(|s: SignalInfo| s@)[k]
            == target[k] by {
            assert(sigs@[k]@ == target[k]);
        }
        assert(sigs@.map_values(|s: SignalInfo| s@) =~= target);
    }
    sigs
}

/// Generates the view mode and signal list of a pod without a view
/// ROM, from its name, data width, view flags and RLE setting.
pub fn generate_norom_signals(
    pod_name: &str,
    data_bits: u16,
    view_dwords: bool,
    view_words: bool,
    view_bytes: bool,
    view_bits: bool,
    rle_disable: bool,
) -> (r: (String, Vec<SignalInfo>))
    ensures
        ({
            let sn = spec_norom(
                name_field(pod_name@),
                data_bits,
                view_dwords,
                view_words,
                view_bytes,
                view_bits,
                rle_disable,
            );
            r.0@ == sn.0 && r.1@.map_values(|s: SignalInfo| s@) == sn.1
        }),
{
    let trimmed = trim_trailing(pod_name);
    let base = trimmed.as_str();
    let has_adc = str_contains(base, "adc");
    let has_iq = str_contains(base, "iq");
    if has_adc && has_iq && data_bits >= 25 {
        let mut sigs: Vec<SignalInfo> = Vec::new();
        sigs.push(
            SignalInfo {
                name: String::from_str("adc_i[11:0]"),
                bit_high: 11,
                bit_low: 0,
                signal_type: String::from_str("analog"),
            },
        );
        sigs.push(
            SignalInfo {
                name: String::from_str("adc_q[11:0]"),
                bit_high: 23,
                bit_low: 12,
                signal_type: String::from_str("analog"),
            },
        );
        sigs.push(
            SignalInfo {
                name: String::from_str("adc_valid"),
                bit_high: 24,
                bit_low: 24,
                signal_type: String::from_str("bit"),
            },
        );
        proof {
            assert(sigs@.map_values(|s: SignalInfo| s@) =~= spec_iq_signals());
        }
        return (String::from_str("iq"), sigs);
    }
    let stype: &str = if rle_disable {
        "analog"
    } else {
        "vector"
    };
    if view_dwords {
        (String::from_str("dwords"), window_signals(base, data_bits, 32, "_d", false, stype))
    } else if view_words {
        (String::from_str("words"), window_signals(base, data_bits, 16, "_w", false, stype))
    } else if view_bytes {
        (String::from_str("bytes"), window_signals(base, data_bits, 8, "_b", true, "vector"))
    } else if view_bits {
        (String::from_str("bits"), bit_signals(base, data_bits))
    } else {
        (String::from_str("dwords"), window_signals(base, data_bits, 32, "_d", false, stype))
    }
}

} // verus!
