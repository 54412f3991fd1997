//! Display forms of millicores, bytes and byte counts. A figure shown with
//! decimals is the count converted to a double, divided as doubles divide,
//! and written with those decimals (ties to even), all done in integers.
use vstd::prelude::*;
use crate::text::{dec_repr, append_u64};
use crate::binary64::{double_of, double_of_exec, scaled_quotient, scaled_quotient_exec};
use vstd::arithmetic::power2::{pow2, lemma2_to64, lemma2_to64_rest, lemma_pow2_unfold};
use crate::quantity::{div_round, div_round_exec, tenths_repr, append_tenths, parse_memory_spec, lemma_parse_dec_repr, drop_suffix};
use crate::text::seq_ends_with;

verus! {

pub const GIB: u64 = 1073741824;
pub const MIB: u64 = 1048576;
pub const KIB: u64 = 1024;

/// `m` millicores as whole cores with one decimal (`m as f64 / 1000.0`
/// written with one decimal), or as `<m>m` below one core.
pub open spec fn cpu_repr(m: nat, cores_suffix: Seq<char>) -> Seq<char> {
    if m >= 1000 {
        tenths_repr(scaled_quotient(double_of(m), 1000, 10)) + cores_suffix
    } else {
        dec_repr(m) + seq!['m']
    }
}

/// `b` bytes in binary units: one decimal for GiB (of `b as f64`, which a
/// power of two divides exactly), none for MiB and KiB.
pub open spec fn memory_repr(b: nat, sep: Seq<char>) -> Seq<char> {
    if b >= GIB {
        tenths_repr(div_round(double_of(b) * 10, GIB as nat)) + sep + seq!['G', 'i']
    } else if b >= MIB {
        dec_repr(div_round(b, MIB as nat)) + sep + seq!['M', 'i']
    } else if b >= KIB {
        dec_repr(div_round(b, KIB as nat)) + sep + seq!['K', 'i']
    } else {
        dec_repr(b) + sep + seq!['B']
    }
}

/// A whole number `k` of KiB or MiB (`1 <= k < 1024`) is rendered without
/// a space as `<k>Ki` or `<k>Mi`, and that text reads back as the same
/// number of bytes.
pub proof fn law_binary_units_read_back(k: nat)
    requires
        1 <= k < 1024,
    ensures
        memory_repr(k * 1024, Seq::empty()) == dec_repr(k) + seq!['K', 'i'],
        parse_memory_spec(memory_repr(k * 1024, Seq::empty())) == k * 1024,
        memory_repr(k * 1048576, Seq::empty()) == dec_repr(k) + seq!['M', 'i'],
        parse_memory_spec(memory_repr(k * 1048576, Seq::empty())) == k * 1048576,
{
    assert((k * 1024) / 1024 == k && (k * 1024) % 1024 == 0) by (nonlinear_arith) requires k >= 1;
    assert((k * 1048576) / 1048576 == k && (k * 1048576) % 1048576 == 0) by (nonlinear_arith) requires k >= 1;
    assert(div_round(k * 1024, KIB as nat) == k);
    assert(div_round(k * 1048576, MIB as nat) == k);
    lemma_parse_dec_repr(k);
    let ki = dec_repr(k) + seq!['K', 'i'];
    let mi = dec_repr(k) + seq!['M', 'i'];
    assert(memory_repr(k * 1024, Seq::empty()) =~= ki);
    assert(memory_repr(k * 1048576, Seq::empty()) =~= mi);
    assert(ki.subrange(ki.len() - 2, ki.len() as int) =~= seq!['K', 'i']);
    assert(drop_suffix(ki, 2) =~= dec_repr(k));
    assert(mi.subrange(mi.len() - 2, mi.len() as int) =~= seq!['M', 'i']);
    assert(!seq_ends_with(mi, seq!['K', 'i'])) by {
        assert(mi[mi.len() - 2] == 'M');
        if seq_ends_with(mi, seq!['K', 'i']) {
            assert(mi.subrange(mi.len() - 2, mi.len() as int)[0] == 'K');
        }
    }
    assert(drop_suffix(mi, 2) =~= dec_repr(k));
    assert(k * 1048576 < 0x1_0000_0000_0000_0000) by (nonlinear_arith) requires k < 1024;
}

/// `b` bytes in decimal units with one decimal (`b as f64` divided by the
/// unit as a double): GB, MB, KB, or plain bytes.
pub open spec fn bytes_repr(b: nat) -> Seq<char> {
    if b >= 1_000_000_000 {
        tenths_repr(scaled_quotient(double_of(b), 1_000_000_000, 10)) + seq![' ', 'G', 'B']
    } else if b >= 1_000_000 {
        tenths_repr(scaled_quotient(double_of(b), 1_000_000, 10)) + seq![' ', 'M', 'B']
    } else if b >= 1_000 {
        tenths_repr(scaled_quotient(double_of(b), 1_000, 10)) + seq![' ', 'K', 'B']
    } else {
        dec_repr(b) + seq![' ', 'B']
    }
}

/// Renders millicores; `with_cores` picks the ` cores` suffix over none.
pub fn render_cpu(millicores: u64, with_cores: bool) -> (r: String)
    ensures
        r@ == cpu_repr(millicores as nat, if with_cores { seq![' ', 'c', 'o', 'r', 'e', 's'] } else { Seq::empty() }),
{
    let mut s = String::new();
    if millicores >= 1000 {
        let a = double_of_exec(millicores);
        proof { lemma2_to64(); lemma2_to64_rest(); }
        let t = scaled_quotient_exec(a, 1000, 10);
        append_tenths(&mut s, t);
        if with_cores {
            s.append(" cores");
            proof { reveal_strlit(" cores"); }
        }
    } else {
        append_u64(&mut s, millicores);
        s.append("m");
        proof { reveal_strlit("m"); }
    }
    proof {
        assert(s@ =~= cpu_repr(millicores as nat, if with_cores { seq![' ', 'c', 'o', 'r', 'e', 's'] } else { Seq::empty() }));
    }
    s
}

/// Renders bytes in binary units; `spaced` puts a space before the unit.
pub fn render_memory(bytes: u64, spaced: bool) -> (r: String)
    ensures
        r@ == memory_repr(bytes as nat, if spaced { seq![' '] } else { Seq::empty() }),
{
    let mut s = String::new();
    let unit: &str;
    if bytes >= GIB {
        let a = double_of_exec(bytes);
        proof { lemma2_to64(); lemma2_to64_rest(); lemma_pow2_unfold(65); }
        assert(a * 10 <= 0x14_0000_0000_0000_0000) by (nonlinear_arith)
            requires a <= pow2(65), pow2(65) == 0x2_0000_0000_0000_0000;
        let t = div_round_exec(a * 10, GIB as u128);
        assert(t <= u64::MAX) by (nonlinear_arith)
            requires t == div_round(a as nat * 10, GIB as nat), a * 10 <= 0x14_0000_0000_0000_0000;
        append_tenths(&mut s, t as u64);
        unit = "Gi";
        proof { reveal_strlit("Gi"); }
    } else if bytes >= MIB {
        let t = div_round_exec(bytes as u128, MIB as u128);
        assert(t <= u64::MAX) by (nonlinear_arith)
            requires t == div_round(bytes as nat, MIB as nat), bytes <= u64::MAX;
        append_u64(&mut s, t as u64);
        unit = "Mi";
        proof { reveal_strlit("Mi"); }
    } else if bytes >= KIB {
        let t = div_round_exec(bytes as u128, KIB as u128);
        assert(t <= u64::MAX) by (nonlinear_arith)
            requires t == div_round(bytes as nat, KIB as nat), bytes <= u64::MAX;
        append_u64(&mut s, t as u64);
        unit = "Ki";
        proof { reveal_strlit("Ki"); }
    } else {
        append_u64(&mut s, bytes);
        unit = "B";
        proof { reveal_strlit("B"); }
    }
    if spaced {
        s.append(" ");
        proof { reveal_strlit(" "); }
    }
    s.append(unit);
    proof {
        assert(s@ =~= memory_repr(bytes as nat, if spaced { seq![' '] } else { Seq::empty() }));
    }
    s
}

/// Renders a byte count in decimal units (`1.5 KB`).
pub fn format_bytes(bytes: u64) -> (r: String)
    ensures
        r@ == bytes_repr(bytes as nat),
{
    let mut s = String::new();
    if bytes >= 1_000_000_000 {
        let a = double_of_exec(bytes);
        proof { lemma2_to64(); lemma2_to64_rest(); }
        let t = scaled_quotient_exec(a, 1_000_000_000, 10);
        append_tenths(&mut s, t);
        s.append(" GB");
        proof { reveal_strlit(" GB"); }
    } else if bytes >= 1_000_000 {
        let a = double_of_exec(bytes);
        proof { lemma2_to64(); lemma2_to64_rest(); }
        let t = scaled_quotient_exec(a, 1_000_000, 10);
        append_tenths(&mut s, t);
        s.append(" MB");
        proof { reveal_strlit(" MB"); }
    } else if bytes >= 1_000 {
        let a = double_of_exec(bytes);
        proof { lemma2_to64(); lemma2_to64_rest(); }
        let t = scaled_quotient_exec(a, 1_000, 10);
        append_tenths(&mut s, t);
        s.append(" KB");
        proof { reveal_strlit(" KB"); }
    } else {
        append_u64(&mut s, bytes);
        s.append(" B");
        proof { reveal_strlit(" B"); }
    }
    proof { assert(s@ =~= bytes_repr(bytes as nat)); }
    s
}

} // verus!
