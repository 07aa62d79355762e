//! SunSpec scale factors: each scaled metric's real value is
//! `raw × 10^(scale factor)`, and the scale factors themselves are not
//! published.

use vstd::prelude::*;
use vstd::arithmetic::power2::{pow2, lemma2_to64, lemma2_to64_rest, lemma_pow2_strictly_increases};
use crate::map::ValueMap;
use crate::value::{copy_number, Number, Value};

verus! {

/// The value of the single-precision float `bits`, truncated toward zero to
/// an `i64`: NaN gives 0, and values beyond the range give its nearest end.
/// This is what `f as i64` gives in Rust.
pub open spec fn f32_to_i64(bits: u32) -> i64 {
    let e = (bits / 0x80_0000) % 0x100;
    let m = bits % 0x80_0000;
    let negative = bits >= 0x8000_0000;
    if e == 0xff && m != 0 {
        0
    } else if e < 127 {
        0
    } else if e >= 190 {
        if negative {
            i64::MIN
        } else {
            i64::MAX
        }
    } else {
        let magnitude = if e >= 150 {
            (m + 0x80_0000) * pow2((e - 150) as nat)
        } else {
            (m + 0x80_0000) / (pow2((150 - e) as nat) as int)
        };
        (if negative {
            -magnitude
        } else {
            magnitude
        }) as i64
    }
}

/// A value as an integer scale factor: an integer, or a float truncated
/// toward zero. A value scaled before is not taken as a scale factor, as its
/// number is the result of floating-point arithmetic that is left to the
/// caller; text is not one either.
pub open spec fn scale_of(v: Value) -> Option<i64> {
    match v {
        Value::Int(n) => Some(n),
        Value::Float(bits) => Some(f32_to_i64(bits)),
        _ => None,
    }
}

/// A value as the operand of a scaling, where it is a number: an integer, a
/// float, or a value scaled before, which is then scaled once more. Text is
/// not scaled.
pub open spec fn operand_of(v: Value) -> Option<Number> {
    match v {
        Value::Int(n) => Some(Number::Int(n)),
        Value::Float(bits) => Some(Number::Float(bits)),
        Value::Scaled { raw, exponent } => Some(Number::Scaled(Box::new(raw), exponent)),
        Value::Str(_) => None,
    }
}

proof fn lemma_f32_fields(bits: u32)
    ensures
        (bits >> 23u32) & 0xffu32 == (bits / 0x80_0000) % 0x100,
        bits & 0x7f_ffffu32 == bits % 0x80_0000,
        (bits >> 31u32 == 1u32) == (bits >= 0x8000_0000),
{
    assert((bits >> 23u32) & 0xffu32 == (bits / 0x80_0000u32) % 0x100u32) by (bit_vector);
    assert(bits & 0x7f_ffffu32 == bits % 0x80_0000u32) by (bit_vector);
    assert((bits >> 31u32 == 1u32) == (bits >= 0x8000_0000u32)) by (bit_vector);
}

/// The integer that a float scale factor stands for (`f as i64`).
pub fn f32_bits_to_i64(bits: u32) -> (r: i64)
    ensures
        r == f32_to_i64(bits),
{
    proof {
        lemma_f32_fields(bits);
        lemma2_to64();
    }
    let e: u32 = (bits >> 23u32) & 0xff;
    let m: u32 = bits & 0x7f_ffff;
    let negative = (bits >> 31u32) == 1;
    if e == 0xff && m != 0 {
        0
    } else if e < 127 {
        0
    } else if e >= 190 {
        if negative {
            i64::MIN
        } else {
            i64::MAX
        }
    } else {
        let sig: u64 = (m as u64) + 0x80_0000;
        let magnitude: u64 = if e >= 150 {
            let sh: u64 = (e - 150) as u64;
            proof {
                if sh < 39 {
                    lemma_pow2_strictly_increases(sh as nat, 39);
                }
                lemma2_to64_rest();
                assert(pow2(39) == 0x80_0000_0000);
                assert(sig * pow2(sh as nat) < 0x8000_0000_0000_0000) by (nonlinear_arith)
                    requires
                        sig < 0x100_0000,
                        pow2(sh as nat) <= 0x80_0000_0000,
                ;
                vstd::bits::lemma_u64_shl_is_mul(sig, sh);
            }
            sig << sh
        } else {
            let sh: u64 = (150 - e) as u64;
            proof {
                vstd::bits::lemma_u64_shr_is_div(sig, sh);
            }
            sig >> sh
        };
        proof {
            lemma2_to64_rest();
            assert(magnitude < 0x8000_0000_0000_0000) by {
                if e < 150 {
                    assert(magnitude <= sig) by {
                        vstd::arithmetic::div_mod::lemma_div_is_ordered_by_denominator(
                            sig as int,
                            1,
                            pow2((150 - e) as nat) as int,
                        );
                        vstd::arithmetic::power2::lemma_pow2_pos((150 - e) as nat);
                    }
                }
            }
        }
        if negative {
            -(magnitude as i64)
        } else {
            magnitude as i64
        }
    }
}

/// The value as a scale factor: an integer, or a float truncated to one.
pub fn as_i64(v: &Value) -> (r: Option<i64>)
    ensures
        r == scale_of(*v),
{
    match v {
        Value::Int(n) => Some(*n),
        Value::Float(bits) => Some(f32_bits_to_i64(*bits)),
        _ => None,
    }
}

/// The value as the operand of a scaling.
pub fn as_operand(v: &Value) -> (r: Option<Number>)
    ensures
        r == operand_of(*v),
{
    match v {
        Value::Int(n) => Some(Number::Int(*n)),
        Value::Float(bits) => Some(Number::Float(*bits)),
        Value::Scaled { raw, exponent } => Some(Number::Scaled(Box::new(copy_number(raw)), *exponent)),
        Value::Str(_) => None,
    }
}

/// A scale factor's key and the keys of the values it applies to.
pub struct ScaleGroup {
    pub scale_key: &'static str,
    pub value_keys: Vec<&'static str>,
}

/// A scale table as keys.
pub open spec fn table_view(t: Seq<ScaleGroup>) -> Seq<(Seq<char>, Seq<Seq<char>>)> {
    t.map_values(|g: ScaleGroup| (g.scale_key@, g.value_keys@.map_values(|k: &str| k@)))
}

/// No key occurs twice in a scale table: not as two scale keys, not as a
/// scale key and a value key, and not as two value keys.
pub open spec fn table_disjoint(t: Seq<(Seq<char>, Seq<Seq<char>>)>) -> bool {
    &&& forall|g: int, h: int|
        0 <= g < t.len() && 0 <= h < t.len() && g != h ==> #[trigger] t[g].0 != #[trigger] t[h].0
    &&& forall|g: int, h: int, q: int|
        0 <= g < t.len() && 0 <= h < t.len() && 0 <= q < t[h].1.len() ==> #[trigger] t[g].0
            != #[trigger] t[h].1[q]
    &&& forall|g: int, q: int, h: int, r: int|
        0 <= g < t.len() && 0 <= h < t.len() && 0 <= q < t[g].1.len() && 0 <= r < t[h].1.len()
            && (g != h || q != r) ==> #[trigger] t[g].1[q] != #[trigger] t[h].1[r]
}

/// Neither sentinel that marks a missing scale factor.
pub open spec fn is_usable_scale(s: i64) -> bool {
    s != 0x8000 && s != -32768
}

/// The scale factor that the map holds under `sk`, where it holds a usable one.
pub open spec fn factor_in(m: Map<Seq<char>, Value>, sk: Seq<char>) -> Option<i64> {
    if m.contains_key(sk) {
        match scale_of(m[sk]) {
            Some(s) => if is_usable_scale(s) {
                Some(s)
            } else {
                None
            },
            None => None,
        }
    } else {
        None
    }
}

/// Group `g` of the table lists `k` among its value keys.
pub open spec fn applies_to(t: Seq<(Seq<char>, Seq<Seq<char>>)>, g: int, k: Seq<char>) -> bool {
    0 <= g < t.len() && t[g].1.contains(k)
}

/// The group that lists `k` among its value keys.
pub open spec fn group_of(t: Seq<(Seq<char>, Seq<Seq<char>>)>, k: Seq<char>) -> int {
    choose|g: int| applies_to(t, g, k)
}

/// `k` is the scale key of a group of the table.
pub open spec fn is_scale_key(t: Seq<(Seq<char>, Seq<Seq<char>>)>, k: Seq<char>) -> bool {
    exists|g: int| 0 <= g < t.len() && t[g].0 == k
}

/// The value under `k` once the table is applied: a number listed under a
/// group whose factor `s` the map holds becomes `raw × 10^s`; every other
/// value stays as it was.
pub open spec fn scaled_entry(m: Map<Seq<char>, Value>, t: Seq<(Seq<char>, Seq<Seq<char>>)>, k: Seq<char>) -> Value {
    let g = group_of(t, k);
    if applies_to(t, g, k) {
        match (factor_in(m, t[g].0), operand_of(m[k])) {
            (Some(s), Some(raw)) => Value::Scaled { raw, exponent: s as i32 },
            _ => m[k],
        }
    } else {
        m[k]
    }
}

/// The map with the table applied: scaled values, and every scale factor
/// left out.
pub open spec fn scale_table_applied(m: Map<Seq<char>, Value>, t: Seq<(Seq<char>, Seq<Seq<char>>)>) -> Map<Seq<char>, Value> {
    Map::new(|k: Seq<char>| m.contains_key(k) && !is_scale_key(t, k), |k: Seq<char>| scaled_entry(m, t, k))
}

/// The metrics with the inverter's scale factors applied.
pub open spec fn scaled_values(m: Map<Seq<char>, Value>) -> Map<Seq<char>, Value> {
    scale_table_applied(m, spec_scale_table())
}

/// A number that tells apart the keys of the scale table: `-(g + 1)` for the
/// scale key of group `g`, `100 * g + q` for its `q`-th value key.
pub open spec fn key_code(k: Seq<char>) -> int {
    if k.len() == 7 {
        0
    } else if k.len() == 8 {
        if k[6] == 'a' {
            200
        } else if k[6] == 'd' {
            1000
        } else {
            -100
        }
    } else if k.len() == 9 {
        300
    } else if k.len() == 10 {
        if k[1] == '1' && k[3] == 'c' {
            1
        } else if k[1] == '2' && k[3] == 'c' {
            2
        } else if k[1] == '3' && k[3] == 'c' {
            3
        } else if k[1] == '1' && k[3] == 'v' {
            100
        } else if k[1] == '2' && k[3] == 'v' {
            101
        } else if k[1] == '3' && k[3] == 'v' {
            102
        } else if k[1] == 'u' && k[3] == 'r' {
            800
        } else if k[1] == 'o' && k[3] == 't' {
            900
        } else {
            -100
        }
    } else if k.len() == 11 {
        if k[1] == '1' {
            103
        } else if k[1] == '2' {
            104
        } else if k[1] == '3' {
            105
        } else if k[1] == 'e' {
            1100
        } else {
            -100
        }
    } else if k.len() == 12 {
        if k[0] == 'p' {
            600
        } else if k[0] == 'e' {
            700
        } else {
            -100
        }
    } else if k.len() == 13 {
        if k[0] == 'c' {
            -1
        } else if k[0] == 'v' {
            -2
        } else {
            -100
        }
    } else if k.len() == 14 {
        if k[6] == 'a' && k[7] == 'c' {
            -3
        } else if k[6] == 'a' && k[7] == 'p' {
            400
        } else if k[6] == 'r' && k[7] == 'e' {
            500
        } else if k[6] == 'd' && k[7] == 'c' {
            -11
        } else {
            -100
        }
    } else if k.len() == 15 {
        -4
    } else if k.len() == 16 {
        if k[0] == 'c' {
            -9
        } else if k[0] == 'v' {
            -10
        } else {
            -100
        }
    } else if k.len() == 17 {
        -12
    } else if k.len() == 18 {
        if k[0] == 'p' {
            -7
        } else if k[0] == 'e' {
            -8
        } else {
            -100
        }
    } else if k.len() == 20 {
        if k[6] == 'a' {
            -5
        } else if k[6] == 'r' {
            -6
        } else {
            -100
        }
    } else {
        -100
    }
}

/// Each scale-factor key with the keys of the values it applies to.
pub open spec fn spec_scale_table() -> Seq<(Seq<char>, Seq<Seq<char>>)> {
    seq![
        ("current_scale"@, seq!["current"@, "l1_current"@, "l2_current"@, "l3_current"@]),
        ("voltage_scale"@, seq!["l1_voltage"@, "l2_voltage"@, "l3_voltage"@, "l1n_voltage"@, "l2n_voltage"@, "l3n_voltage"@]),
        ("power_ac_scale"@, seq!["power_ac"@]),
        ("frequency_scale"@, seq!["frequency"@]),
        ("power_apparent_scale"@, seq!["power_apparent"@]),
        ("power_reactive_scale"@, seq!["power_reactive"@]),
        ("power_factor_scale"@, seq!["power_factor"@]),
        ("energy_total_scale"@, seq!["energy_total"@]),
        ("current_dc_scale"@, seq!["current_dc"@]),
        ("voltage_dc_scale"@, seq!["voltage_dc"@]),
        ("power_dc_scale"@, seq!["power_dc"@]),
        ("temperature_scale"@, seq!["temperature"@]),
    ]
}

/// Each scale-factor key with the keys of the values it applies to.
pub fn scale_factor_table() -> (t: Vec<ScaleGroup>)
    ensures
        table_view(t@) == spec_scale_table(),
{
    let t = vec![
        ScaleGroup { scale_key: "current_scale", value_keys: vec!["current", "l1_current", "l2_current", "l3_current"] },
        ScaleGroup { scale_key: "voltage_scale", value_keys: vec!["l1_voltage", "l2_voltage", "l3_voltage", "l1n_voltage", "l2n_voltage", "l3n_voltage"] },
        ScaleGroup { scale_key: "power_ac_scale", value_keys: vec!["power_ac"] },
        ScaleGroup { scale_key: "frequency_scale", value_keys: vec!["frequency"] },
        ScaleGroup { scale_key: "power_apparent_scale", value_keys: vec!["power_apparent"] },
        ScaleGroup { scale_key: "power_reactive_scale", value_keys: vec!["power_reactive"] },
        ScaleGroup { scale_key: "power_factor_scale", value_keys: vec!["power_factor"] },
        ScaleGroup { scale_key: "energy_total_scale", value_keys: vec!["energy_total"] },
        ScaleGroup { scale_key: "current_dc_scale", value_keys: vec!["current_dc"] },
        ScaleGroup { scale_key: "voltage_dc_scale", value_keys: vec!["voltage_dc"] },
        ScaleGroup { scale_key: "power_dc_scale", value_keys: vec!["power_dc"] },
        ScaleGroup { scale_key: "temperature_scale", value_keys: vec!["temperature"] },
    ];
    proof {
        assert(t@[0].value_keys@.map_values(|k: &str| k@) =~= spec_scale_table()[0].1);
        assert(t@[1].value_keys@.map_values(|k: &str| k@) =~= spec_scale_table()[1].1);
        assert(t@[2].value_keys@.map_values(|k: &str| k@) =~= spec_scale_table()[2].1);
        assert(t@[3].value_keys@.map_values(|k: &str| k@) =~= spec_scale_table()[3].1);
        assert(t@[4].value_keys@.map_values(|k: &str| k@) =~= spec_scale_table()[4].1);
        assert(t@[5].value_keys@.map_values(|k: &str| k@) =~= spec_scale_table()[5].1);
        assert(t@[6].value_keys@.map_values(|k: &str| k@) =~= spec_scale_table()[6].1);
        assert(t@[7].value_keys@.map_values(|k: &str| k@) =~= spec_scale_table()[7].1);
        assert(t@[8].value_keys@.map_values(|k: &str| k@) =~= spec_scale_table()[8].1);
        assert(t@[9].value_keys@.map_values(|k: &str| k@) =~= spec_scale_table()[9].1);
        assert(t@[10].value_keys@.map_values(|k: &str| k@) =~= spec_scale_table()[10].1);
        assert(t@[11].value_keys@.map_values(|k: &str| k@) =~= spec_scale_table()[11].1);
        assert(table_view(t@) =~= spec_scale_table());
    }
    t
}

/// The scale table names every key once.
pub proof fn lemma_scale_table_disjoint()
    ensures
        table_disjoint(spec_scale_table()),
{
    reveal_strlit("current_scale");
    reveal_strlit("voltage_scale");
    reveal_strlit("power_ac_scale");
    reveal_strlit("frequency_scale");
    reveal_strlit("power_apparent_scale");
    reveal_strlit("power_reactive_scale");
    reveal_strlit("power_factor_scale");
    reveal_strlit("energy_total_scale");
    reveal_strlit("current_dc_scale");
    reveal_strlit("voltage_dc_scale");
    reveal_strlit("power_dc_scale");
    reveal_strlit("temperature_scale");
    reveal_strlit("current");
    reveal_strlit("l1_current");
    reveal_strlit("l2_current");
    reveal_strlit("l3_current");
    reveal_strlit("l1_voltage");
    reveal_strlit("l2_voltage");
    reveal_strlit("l3_voltage");
    reveal_strlit("l1n_voltage");
    reveal_strlit("l2n_voltage");
    reveal_strlit("l3n_voltage");
    reveal_strlit("power_ac");
    reveal_strlit("frequency");
    reveal_strlit("power_apparent");
    reveal_strlit("power_reactive");
    reveal_strlit("power_factor");
    reveal_strlit("energy_total");
    reveal_strlit("current_dc");
    reveal_strlit("voltage_dc");
    reveal_strlit("power_dc");
    reveal_strlit("temperature");
    let t = spec_scale_table();
    assert forall|g: int| 0 <= g < t.len() implies key_code(#[trigger] t[g].0) == -(g + 1) by {
        if g == 0 {
            assert(key_code(t[0].0) == -1);
        } else if g == 1 {
            assert(key_code(t[1].0) == -2);
        } else if g == 2 {
            assert(key_code(t[2].0) == -3);
        } else if g == 3 {
            assert(key_code(t[3].0) == -4);
        } else if g == 4 {
            assert(key_code(t[4].0) == -5);
        } else if g == 5 {
            assert(key_code(t[5].0) == -6);
        } else if g == 6 {
            assert(key_code(t[6].0) == -7);
        } else if g == 7 {
            assert(key_code(t[7].0) == -8);
        } else if g == 8 {
            assert(key_code(t[8].0) == -9);
        } else if g == 9 {
            assert(key_code(t[9].0) == -10);
        } else if g == 10 {
            assert(key_code(t[10].0) == -11);
        } else if g == 11 {
            assert(key_code(t[11].0) == -12);
        }
    }
    assert forall|g: int, q: int| 0 <= g < t.len() && 0 <= q < t[g].1.len() implies key_code(#[trigger] t[g].1[q]) == 100 * g + q by {
        if g == 0 && q == 0 {
            assert(key_code(t[0].1[0]) == 0);
        } else if g == 0 && q == 1 {
            assert(key_code(t[0].1[1]) == 1);
        } else if g == 0 && q == 2 {
            assert(key_code(t[0].1[2]) == 2);
        } else if g == 0 && q == 3 {
            assert(key_code(t[0].1[3]) == 3);
        } else if g == 1 && q == 0 {
            assert(key_code(t[1].1[0]) == 100);
        } else if g == 1 && q == 1 {
            assert(key_code(t[1].1[1]) == 101);
        } else if g == 1 && q == 2 {
            assert(key_code(t[1].1[2]) == 102);
        } else if g == 1 && q == 3 {
            assert(key_code(t[1].1[3]) == 103);
        } else if g == 1 && q == 4 {
            assert(key_code(t[1].1[4]) == 104);
        } else if g == 1 && q == 5 {
            assert(key_code(t[1].1[5]) == 105);
        } else if g == 2 && q == 0 {
            assert(key_code(t[2].1[0]) == 200);
        } else if g == 3 && q == 0 {
            assert(key_code(t[3].1[0]) == 300);
        } else if g == 4 && q == 0 {
            assert(key_code(t[4].1[0]) == 400);
        } else if g == 5 && q == 0 {
            assert(key_code(t[5].1[0]) == 500);
        } else if g == 6 && q == 0 {
            assert(key_code(t[6].1[0]) == 600);
        } else if g == 7 && q == 0 {
            assert(key_code(t[7].1[0]) == 700);
        } else if g == 8 && q == 0 {
            assert(key_code(t[8].1[0]) == 800);
        } else if g == 9 && q == 0 {
            assert(key_code(t[9].1[0]) == 900);
        } else if g == 10 && q == 0 {
            assert(key_code(t[10].1[0]) == 1000);
        } else if g == 11 && q == 0 {
            assert(key_code(t[11].1[0]) == 1100);
        }
    }
}

/// `u` is `t` with only some groups, and some value keys of the last of them.
pub open spec fn sub_table(u: Seq<(Seq<char>, Seq<Seq<char>>)>, t: Seq<(Seq<char>, Seq<Seq<char>>)>) -> bool {
    &&& u.len() <= t.len()
    &&& forall|g: int|
        0 <= g < u.len() ==> {
            &&& #[trigger] u[g].0 == t[g].0
            &&& u[g].1.len() <= t[g].1.len()
            &&& u[g].1 == t[g].1.take(u[g].1.len() as int)
        }
}

/// The first `n` groups of `t`, followed by group `n` with its first `j`
/// value keys.
pub open spec fn prefix_table(t: Seq<(Seq<char>, Seq<Seq<char>>)>, n: int, j: int) -> Seq<(Seq<char>, Seq<Seq<char>>)> {
    t.take(n).push((t[n].0, t[n].1.take(j)))
}

proof fn lemma_prefix_sub_table(t: Seq<(Seq<char>, Seq<Seq<char>>)>, n: int, j: int)
    requires
        0 <= n < t.len(),
        0 <= j <= t[n].1.len(),
    ensures
        sub_table(prefix_table(t, n, j), t),
        sub_table(t.take(n), t),
        sub_table(t.take(n + 1), t),
{
    let u = prefix_table(t, n, j);
    assert forall|g: int| 0 <= g < u.len() implies {
        &&& #[trigger] u[g].0 == t[g].0
        &&& u[g].1.len() <= t[g].1.len()
        &&& u[g].1 == t[g].1.take(u[g].1.len() as int)
    } by {
        if g < n {
            assert(t[g].1.take(t[g].1.len() as int) =~= t[g].1);
        }
    }
    let v = t.take(n + 1);
    assert forall|g: int| 0 <= g < v.len() implies {
        &&& #[trigger] v[g].0 == t[g].0
        &&& v[g].1.len() <= t[g].1.len()
        &&& v[g].1 == t[g].1.take(v[g].1.len() as int)
    } by {
        assert(t[g].1.take(t[g].1.len() as int) =~= t[g].1);
    }
    let w = t.take(n);
    assert forall|g: int| 0 <= g < w.len() implies {
        &&& #[trigger] w[g].0 == t[g].0
        &&& w[g].1.len() <= t[g].1.len()
        &&& w[g].1 == t[g].1.take(w[g].1.len() as int)
    } by {
        assert(t[g].1.take(t[g].1.len() as int) =~= t[g].1);
    }
}

/// In a sub-table of a disjoint table, a key is listed by one group at most.
proof fn lemma_group_unique(
    u: Seq<(Seq<char>, Seq<Seq<char>>)>,
    t: Seq<(Seq<char>, Seq<Seq<char>>)>,
    g: int,
    h: int,
    k: Seq<char>,
)
    requires
        table_disjoint(t),
        sub_table(u, t),
        applies_to(u, g, k),
        applies_to(u, h, k),
    ensures
        g == h,
{
    let q = choose|q: int| 0 <= q < u[g].1.len() && u[g].1[q] == k;
    let r = choose|r: int| 0 <= r < u[h].1.len() && u[h].1[r] == k;
    assert(u[g].0 == t[g].0);
    assert(u[h].0 == t[h].0);
    assert(t[g].1[q] == k);
    assert(t[h].1[r] == k);
}

/// A key that a sub-table does not name keeps its value.
proof fn lemma_untouched(
    m: Map<Seq<char>, Value>,
    u: Seq<(Seq<char>, Seq<Seq<char>>)>,
    k: Seq<char>,
)
    requires
        forall|g: int| 0 <= g < u.len() ==> #[trigger] u[g].0 != k,
        forall|g: int| !applies_to(u, g, k),
    ensures
        scale_table_applied(m, u).contains_key(k) == m.contains_key(k),
        m.contains_key(k) ==> scale_table_applied(m, u)[k] == m[k],
{
    assert(!applies_to(u, group_of(u, k), k));
}

/// The keys of group `n` of a disjoint table are not named by the groups
/// before it, nor the value keys from `j` on by the first `j`.
proof fn lemma_group_keys_fresh(t: Seq<(Seq<char>, Seq<Seq<char>>)>, n: int, j: int)
    requires
        table_disjoint(t),
        0 <= n < t.len(),
        0 <= j <= t[n].1.len(),
    ensures
        forall|g: int| 0 <= g < t.take(n).len() ==> #[trigger] t.take(n)[g].0 != t[n].0,
        forall|g: int| !applies_to(t.take(n), g, t[n].0),
        j < t[n].1.len() ==> forall|g: int|
            0 <= g < prefix_table(t, n, j).len() ==> #[trigger] prefix_table(t, n, j)[g].0
                != t[n].1[j],
        j < t[n].1.len() ==> forall|g: int| !applies_to(prefix_table(t, n, j), g, t[n].1[j]),
{
    let u = t.take(n);
    assert forall|g: int| !applies_to(u, g, t[n].0) by {
        if applies_to(u, g, t[n].0) {
            let q = choose|q: int| 0 <= q < u[g].1.len() && u[g].1[q] == t[n].0;
            assert(t[g].1[q] == t[n].0);
        }
    }
    if j < t[n].1.len() {
        let v = prefix_table(t, n, j);
        let k = t[n].1[j];
        assert forall|g: int| 0 <= g < v.len() implies #[trigger] v[g].0 != k by {
            assert(v[g].0 == t[g].0);
        }
        assert forall|g: int| !applies_to(v, g, k) by {
            if applies_to(v, g, k) {
                let q = choose|q: int| 0 <= q < v[g].1.len() && v[g].1[q] == k;
                if g < n {
                    assert(t[g].1[q] == k);
                } else {
                    assert(t[n].1[q] == k);
                }
            }
        }
    }
}

/// Two sub-tables that list a key under the same groups give it the same
/// scaled value.
proof fn lemma_same_entry(
    m: Map<Seq<char>, Value>,
    t: Seq<(Seq<char>, Seq<Seq<char>>)>,
    u: Seq<(Seq<char>, Seq<Seq<char>>)>,
    v: Seq<(Seq<char>, Seq<Seq<char>>)>,
    k: Seq<char>,
)
    requires
        table_disjoint(t),
        sub_table(u, t),
        sub_table(v, t),
        forall|g: int| applies_to(u, g, k) <==> applies_to(v, g, k),
    ensures
        scaled_entry(m, u, k) == scaled_entry(m, v, k),
{
    let gu = group_of(u, k);
    let gv = group_of(v, k);
    if applies_to(u, gu, k) {
        assert(applies_to(v, gu, k));
        assert(applies_to(v, gv, k));
        assert(applies_to(u, gv, k));
        lemma_group_unique(u, t, gu, gv, k);
        assert(u[gu].0 == t[gu].0);
        assert(v[gv].0 == t[gv].0);
    } else {
        if applies_to(v, gv, k) {
            assert(applies_to(u, gv, k));
        }
    }
}

/// Starting group `n`: its scale key leaves the map.
proof fn lemma_start_group(m: Map<Seq<char>, Value>, t: Seq<(Seq<char>, Seq<Seq<char>>)>, n: int)
    requires
        table_disjoint(t),
        0 <= n < t.len(),
    ensures
        scale_table_applied(m, prefix_table(t, n, 0)) =~= scale_table_applied(m, t.take(n)).remove(
            t[n].0,
        ),
{
    let u = t.take(n);
    let v = prefix_table(t, n, 0);
    lemma_prefix_sub_table(t, n, 0);
    assert forall|k: Seq<char>| #[trigger] is_scale_key(v, k) <==> is_scale_key(u, k) || k == t[n].0 by {
        if is_scale_key(v, k) {
            let g = choose|g: int| 0 <= g < v.len() && v[g].0 == k;
            if g < n {
                assert(u[g].0 == k);
            }
        }
        if is_scale_key(u, k) {
            let g = choose|g: int| 0 <= g < u.len() && u[g].0 == k;
            assert(v[g].0 == k);
        }
        if k == t[n].0 {
            assert(v[n].0 == k);
        }
    }
    assert forall|k: Seq<char>| #[trigger] scale_table_applied(m, v).contains_key(k) implies scale_table_applied(m, v)[k]
        == scale_table_applied(m, u)[k] by {
        assert forall|g: int| applies_to(u, g, k) <==> applies_to(v, g, k) by {
            if g == n {
                assert(v[n].1.len() == 0);
            }
        }
        lemma_same_entry(m, t, u, v, k);
    }
}

/// Group `n` whose factor is not held scales none of its values.
proof fn lemma_skip_group(m: Map<Seq<char>, Value>, t: Seq<(Seq<char>, Seq<Seq<char>>)>, n: int)
    requires
        table_disjoint(t),
        0 <= n < t.len(),
        factor_in(m, t[n].0) is None,
    ensures
        scale_table_applied(m, t.take(n + 1)) =~= scale_table_applied(m, prefix_table(t, n, 0)),
{
    let u = prefix_table(t, n, 0);
    let v = t.take(n + 1);
    lemma_prefix_sub_table(t, n, 0);
    assert forall|k: Seq<char>| #[trigger] is_scale_key(v, k) <==> is_scale_key(u, k) by {
        if is_scale_key(v, k) {
            let g = choose|g: int| 0 <= g < v.len() && v[g].0 == k;
            assert(u[g].0 == k);
        }
        if is_scale_key(u, k) {
            let g = choose|g: int| 0 <= g < u.len() && u[g].0 == k;
            assert(v[g].0 == k);
        }
    }
    assert forall|k: Seq<char>| #[trigger] scale_table_applied(m, v).contains_key(k) implies scale_table_applied(m, v)[k]
        == scale_table_applied(m, u)[k] by {
        let gv = group_of(v, k);
        if applies_to(v, gv, k) && gv == n {
            assert(v[n].0 == t[n].0);
            assert forall|g: int| !applies_to(u, g, k) by {
                if applies_to(u, g, k) {
                    if g == n {
                        assert(u[n].1.len() == 0);
                    } else {
                        assert(applies_to(v, g, k)) by {
                            let q = choose|q: int| 0 <= q < u[g].1.len() && u[g].1[q] == k;
                            assert(v[g].1[q] == k);
                        }
                        lemma_group_unique(v, t, g, n, k);
                    }
                }
            }
            assert(!applies_to(u, group_of(u, k), k));
        } else {
            assert forall|g: int| applies_to(u, g, k) <==> applies_to(v, g, k) by {
                if g == n {
                    assert(u[n].1.len() == 0);
                    if applies_to(v, n, k) {
                        lemma_group_unique(v, t, gv, n, k);
                    }
                }
            }
            lemma_same_entry(m, t, u, v, k);
        }
    }
}

/// Scaling value key `j` of group `n`, whose factor `s` is held.
proof fn lemma_scale_key(
    m: Map<Seq<char>, Value>,
    t: Seq<(Seq<char>, Seq<Seq<char>>)>,
    n: int,
    j: int,
    s: i64,
)
    requires
        table_disjoint(t),
        0 <= n < t.len(),
        0 <= j < t[n].1.len(),
        factor_in(m, t[n].0) == Some(s),
    ensures
        ({
            let k = t[n].1[j];
            let before = scale_table_applied(m, prefix_table(t, n, j));
            let after = scale_table_applied(m, prefix_table(t, n, j + 1));
            if m.contains_key(k) && operand_of(m[k]) is Some {
                after =~= before.insert(k, Value::Scaled { raw: operand_of(m[k])->0, exponent: s as i32 })
            } else {
                after =~= before
            }
        }),
{
    let k0 = t[n].1[j];
    let u = prefix_table(t, n, j);
    let v = prefix_table(t, n, j + 1);
    lemma_prefix_sub_table(t, n, j);
    lemma_prefix_sub_table(t, n, j + 1);
    lemma_group_keys_fresh(t, n, j);
    assert(v[n].1 =~= u[n].1.push(k0));
    assert forall|k: Seq<char>| #[trigger] is_scale_key(v, k) <==> is_scale_key(u, k) by {
        if is_scale_key(v, k) {
            let g = choose|g: int| 0 <= g < v.len() && v[g].0 == k;
            assert(u[g].0 == k);
        }
        if is_scale_key(u, k) {
            let g = choose|g: int| 0 <= g < u.len() && u[g].0 == k;
            assert(v[g].0 == k);
        }
    }
    assert(!is_scale_key(v, k0));
    assert forall|k: Seq<char>| k != k0 implies scaled_entry(m, v, k) == scaled_entry(m, u, k) by {
        assert forall|g: int| applies_to(u, g, k) <==> applies_to(v, g, k) by {
            if g == n {
                if applies_to(v, n, k) {
                    let q = choose|q: int| 0 <= q < v[n].1.len() && v[n].1[q] == k;
                    assert(u[n].1[q] == k);
                }
                if applies_to(u, n, k) {
                    let q = choose|q: int| 0 <= q < u[n].1.len() && u[n].1[q] == k;
                    assert(v[n].1[q] == k);
                }
            }
        }
        lemma_same_entry(m, t, u, v, k);
    }
    assert(applies_to(v, n, k0)) by {
        assert(v[n].1[j] == k0);
    }
    let g0 = group_of(v, k0);
    lemma_group_unique(v, t, g0, n, k0);
    assert(v[n].0 == t[n].0);
}

/// All value keys of group `n` done: the first `n + 1` groups.
proof fn lemma_group_done(t: Seq<(Seq<char>, Seq<Seq<char>>)>, n: int)
    requires
        0 <= n < t.len(),
    ensures
        prefix_table(t, n, t[n].1.len() as int) =~= t.take(n + 1),
{
    assert(t[n].1.take(t[n].1.len() as int) =~= t[n].1);
}

/// Applies the inverter's scale factors: every value listed under a scale
/// factor that the map holds (a number other than the "not implemented"
/// sentinels) becomes `raw × 10^factor`, and every scale-factor key is taken
/// out of the map so that it is not published. Values under a scale factor
/// that is missing, not a number or a sentinel stay unscaled.
pub fn apply_scale_factors(values: &mut ValueMap)
    requires
        old(values).wf(),
    ensures
        final(values).wf(),
        final(values)@ == scaled_values(old(values)@),
{
    let ghost m = values@;
    let ghost t = spec_scale_table();
    let table = scale_factor_table();
    proof {
        lemma_scale_table_disjoint();
    }
    let mut n: usize = 0;
    while n < table.len()
        invariant
            values.wf(),
            table_view(table@) == t,
            table_disjoint(t),
            n <= t.len(),
            m == old(values)@,
            values@ == scale_table_applied(m, t.take(n as int)),
        decreases table@.len() - n,
    {
        let group = &table[n];
        assert(group.scale_key@ == t[n as int].0);
        proof {
            lemma_group_keys_fresh(t, n as int, 0);
            lemma_untouched(m, t.take(n as int), t[n as int].0);
        }
        let scale: Option<i64> = match values.get(group.scale_key) {
            Some(v) => match as_i64(v) {
                Some(s) => if s != 0x8000 && s != -32768 {
                    Some(s)
                } else {
                    None
                },
                None => None,
            },
            None => None,
        };
        assert(scale == factor_in(m, t[n as int].0));
        values.remove(group.scale_key);
        proof {
            lemma_start_group(m, t, n as int);
        }
        match scale {
            None => {
                proof {
                    lemma_skip_group(m, t, n as int);
                }
            },
            Some(s) => {
                let mut j: usize = 0;
                while j < group.value_keys.len()
                    invariant
                        values.wf(),
                        table_view(table@) == t,
                        table_disjoint(t),
                        n < t.len(),
                        *group == table@[n as int],
                        j <= t[n as int].1.len(),
                        factor_in(m, t[n as int].0) == Some(s),
                        values@ == scale_table_applied(m, prefix_table(t, n as int, j as int)),
                    decreases group.value_keys@.len() - j,
                {
                    let key = group.value_keys[j];
                    assert(key@ == t[n as int].1[j as int]);
                    proof {
                        lemma_group_keys_fresh(t, n as int, j as int);
                        lemma_prefix_sub_table(t, n as int, j as int);
                        lemma_untouched(m, prefix_table(t, n as int, j as int), t[n as int].1[j as int]);
                        lemma_scale_key(m, t, n as int, j as int, s);
                    }
                    let operand = match values.get(key) {
                        Some(v) => as_operand(v),
                        None => None,
                    };
                    if let Some(raw) = operand {
                        values.insert(key.to_owned(), Value::Scaled { raw, exponent: s as i32 });
                    }
                    j = j + 1;
                }
                proof {
                    lemma_group_done(t, n as int);
                }
            },
        }
        n = n + 1;
    }
    assert(t.take(t.len() as int) =~= t);
}

/// A value listed under a scale factor that the map holds, if it is a
/// number, becomes `raw × 10^factor`.
pub proof fn law_scaled_value(m: Map<Seq<char>, Value>, g: int, q: int)
    requires
        0 <= g < spec_scale_table().len(),
        0 <= q < spec_scale_table()[g].1.len(),
        m.contains_key(spec_scale_table()[g].1[q]),
        factor_in(m, spec_scale_table()[g].0) is Some,
        operand_of(m[spec_scale_table()[g].1[q]]) is Some,
    ensures
        ({
            let k = spec_scale_table()[g].1[q];
            &&& scaled_values(m).contains_key(k)
            &&& scaled_values(m)[k] == Value::Scaled {
                raw: operand_of(m[k])->0,
                exponent: factor_in(m, spec_scale_table()[g].0)->0 as i32,
            }
        }),
{
    let t = spec_scale_table();
    let k = t[g].1[q];
    lemma_scale_table_disjoint();
    assert(applies_to(t, g, k));
    let h = group_of(t, k);
    assert(sub_table(t, t)) by {
        assert forall|i: int| 0 <= i < t.len() implies t[i].1 == t[i].1.take(t[i].1.len() as int) by {
            assert(t[i].1 =~= t[i].1.take(t[i].1.len() as int));
        }
    }
    lemma_group_unique(t, t, g, h, k);
    assert(!is_scale_key(t, k)) by {
        if is_scale_key(t, k) {
            let i = choose|i: int| 0 <= i < t.len() && t[i].0 == k;
            assert(t[i].0 != t[g].1[q]);
        }
    }
}

/// No scale factor is published, whatever it holds.
pub proof fn law_scale_key_not_published(m: Map<Seq<char>, Value>, g: int)
    requires
        0 <= g < spec_scale_table().len(),
    ensures
        !scaled_values(m).contains_key(spec_scale_table()[g].0),
{
    assert(is_scale_key(spec_scale_table(), spec_scale_table()[g].0));
}

/// A key that the scale table does not name keeps its value.
pub proof fn law_other_keys_unchanged(m: Map<Seq<char>, Value>, k: Seq<char>)
    requires
        forall|g: int| 0 <= g < spec_scale_table().len() ==> #[trigger] spec_scale_table()[g].0 != k,
        forall|g: int| !applies_to(spec_scale_table(), g, k),
    ensures
        scaled_values(m).contains_key(k) == m.contains_key(k),
        m.contains_key(k) ==> scaled_values(m)[k] == m[k],
{
    lemma_untouched(m, spec_scale_table(), k);
}

/// Applying the scale factors a second time changes nothing.
pub proof fn law_scaling_idempotent(m: Map<Seq<char>, Value>)
    ensures
        scaled_values(scaled_values(m)) == scaled_values(m),
{
    let t = spec_scale_table();
    let once = scaled_values(m);
    lemma_scale_table_disjoint();
    assert forall|g: int| 0 <= g < t.len() implies factor_in(once, #[trigger] t[g].0) is None by {
        law_scale_key_not_published(m, g);
    }
    assert forall|k: Seq<char>| #[trigger] once.contains_key(k) implies !is_scale_key(t, k) by {}
    assert forall|k: Seq<char>| #[trigger] once.contains_key(k) implies scaled_entry(once, t, k) == once[k] by {
        let g = group_of(t, k);
        if applies_to(t, g, k) {
            assert(factor_in(once, t[g].0) is None);
        }
    }
    assert(scaled_values(once) =~= once);
}


/// Every value key of the table is scaled by its own group's factor, and the
/// group's scale key is left out.
proof fn lemma_scales_pair(m: Map<Seq<char>, Value>, g: int, q: int)
    requires
        0 <= g < spec_scale_table().len(),
        0 <= q < spec_scale_table()[g].1.len(),
    ensures
        scales_pair(m, spec_scale_table()[g].0, spec_scale_table()[g].1[q]),
{
    let t = spec_scale_table();
    let k = t[g].1[q];
    law_scale_key_not_published(m, g);
    lemma_scale_table_disjoint();
    assert(applies_to(t, g, k));
    let h = group_of(t, k);
    assert(sub_table(t, t)) by {
        assert forall|i: int| 0 <= i < t.len() implies t[i].1 == t[i].1.take(t[i].1.len() as int) by {
            assert(t[i].1 =~= t[i].1.take(t[i].1.len() as int));
        }
    }
    lemma_group_unique(t, t, g, h, k);
    assert(!is_scale_key(t, k)) by {
        if is_scale_key(t, k) {
            let i = choose|i: int| 0 <= i < t.len() && t[i].0 == k;
            assert(t[i].0 != t[g].1[q]);
        }
    }
}

/// What applying the scale factors does to a value key `vk` listed under the
/// scale key `sk`: the scale key is gone; the value, if it is a number and the
/// factor is usable, becomes `raw × 10^factor`, and otherwise stays as it was.
pub open spec fn scales_pair(m: Map<Seq<char>, Value>, sk: Seq<char>, vk: Seq<char>) -> bool {
    let out = scaled_values(m);
    &&& !out.contains_key(sk)
    &&& out.contains_key(vk) == m.contains_key(vk)
    &&& m.contains_key(vk) ==> out[vk] == match (factor_in(m, sk), operand_of(m[vk])) {
        (Some(s), Some(raw)) => Value::Scaled { raw, exponent: s as i32 },
        _ => m[vk],
    }
}

/// The keys that SunSpec scale factors and their values are published under.
pub open spec fn sunspec_scaled_keys() -> Seq<Seq<char>> {
    seq![
        "current_scale"@,
        "voltage_scale"@,
        "power_ac_scale"@,
        "frequency_scale"@,
        "power_apparent_scale"@,
        "power_reactive_scale"@,
        "power_factor_scale"@,
        "energy_total_scale"@,
        "current_dc_scale"@,
        "voltage_dc_scale"@,
        "power_dc_scale"@,
        "temperature_scale"@,
        "current"@,
        "l1_current"@,
        "l2_current"@,
        "l3_current"@,
        "l1_voltage"@,
        "l2_voltage"@,
        "l3_voltage"@,
        "l1n_voltage"@,
        "l2n_voltage"@,
        "l3n_voltage"@,
        "power_ac"@,
        "frequency"@,
        "power_apparent"@,
        "power_reactive"@,
        "power_factor"@,
        "energy_total"@,
        "current_dc"@,
        "voltage_dc"@,
        "power_dc"@,
        "temperature"@,
    ]
}

/// Each SunSpec scale factor applies to its own values: current to the
/// currents, voltage to the six AC voltages, and each other factor to the
/// metric of the same name; keys that are not among these stay as they were.
pub proof fn law_sunspec_scale_pairs(m: Map<Seq<char>, Value>)
    ensures
        scales_pair(m, "current_scale"@, "current"@),
        scales_pair(m, "current_scale"@, "l1_current"@),
        scales_pair(m, "current_scale"@, "l2_current"@),
        scales_pair(m, "current_scale"@, "l3_current"@),
        scales_pair(m, "voltage_scale"@, "l1_voltage"@),
        scales_pair(m, "voltage_scale"@, "l2_voltage"@),
        scales_pair(m, "voltage_scale"@, "l3_voltage"@),
        scales_pair(m, "voltage_scale"@, "l1n_voltage"@),
        scales_pair(m, "voltage_scale"@, "l2n_voltage"@),
        scales_pair(m, "voltage_scale"@, "l3n_voltage"@),
        scales_pair(m, "power_ac_scale"@, "power_ac"@),
        scales_pair(m, "frequency_scale"@, "frequency"@),
        scales_pair(m, "power_apparent_scale"@, "power_apparent"@),
        scales_pair(m, "power_reactive_scale"@, "power_reactive"@),
        scales_pair(m, "power_factor_scale"@, "power_factor"@),
        scales_pair(m, "energy_total_scale"@, "energy_total"@),
        scales_pair(m, "current_dc_scale"@, "current_dc"@),
        scales_pair(m, "voltage_dc_scale"@, "voltage_dc"@),
        scales_pair(m, "power_dc_scale"@, "power_dc"@),
        scales_pair(m, "temperature_scale"@, "temperature"@),
{
    lemma_scales_pair(m, 0, 0);
    lemma_scales_pair(m, 0, 1);
    lemma_scales_pair(m, 0, 2);
    lemma_scales_pair(m, 0, 3);
    lemma_scales_pair(m, 1, 0);
    lemma_scales_pair(m, 1, 1);
    lemma_scales_pair(m, 1, 2);
    lemma_scales_pair(m, 1, 3);
    lemma_scales_pair(m, 1, 4);
    lemma_scales_pair(m, 1, 5);
    lemma_scales_pair(m, 2, 0);
    lemma_scales_pair(m, 3, 0);
    lemma_scales_pair(m, 4, 0);
    lemma_scales_pair(m, 5, 0);
    lemma_scales_pair(m, 6, 0);
    lemma_scales_pair(m, 7, 0);
    lemma_scales_pair(m, 8, 0);
    lemma_scales_pair(m, 9, 0);
    lemma_scales_pair(m, 10, 0);
    lemma_scales_pair(m, 11, 0);
}

/// Scaling leaves alone every key that is neither a SunSpec scale factor nor
/// one of the values they apply to.
pub proof fn law_sunspec_other_keys(m: Map<Seq<char>, Value>, k: Seq<char>)
    requires
        !sunspec_scaled_keys().contains(k),
    ensures
        scaled_values(m).contains_key(k) == m.contains_key(k),
        m.contains_key(k) ==> scaled_values(m)[k] == m[k],
{
    let t = spec_scale_table();
    let keys = sunspec_scaled_keys();
    assert forall|g: int| 0 <= g < t.len() implies #[trigger] t[g].0 != k by {
        if g == 0 {
            assert(t[0].0 == keys[0]);
        } else if g == 1 {
            assert(t[1].0 == keys[1]);
        } else if g == 2 {
            assert(t[2].0 == keys[2]);
        } else if g == 3 {
            assert(t[3].0 == keys[3]);
        } else if g == 4 {
            assert(t[4].0 == keys[4]);
        } else if g == 5 {
            assert(t[5].0 == keys[5]);
        } else if g == 6 {
            assert(t[6].0 == keys[6]);
        } else if g == 7 {
            assert(t[7].0 == keys[7]);
        } else if g == 8 {
            assert(t[8].0 == keys[8]);
        } else if g == 9 {
            assert(t[9].0 == keys[9]);
        } else if g == 10 {
            assert(t[10].0 == keys[10]);
        } else if g == 11 {
            assert(t[11].0 == keys[11]);
        }
    }
    assert forall|g: int| !applies_to(t, g, k) by {
        if applies_to(t, g, k) {
            let q = choose|q: int| 0 <= q < t[g].1.len() && t[g].1[q] == k;
            if g == 0 && q == 0 {
                assert(t[0].1[0] == keys[12]);
            } else if g == 0 && q == 1 {
                assert(t[0].1[1] == keys[13]);
            } else if g == 0 && q == 2 {
                assert(t[0].1[2] == keys[14]);
            } else if g == 0 && q == 3 {
                assert(t[0].1[3] == keys[15]);
            } else if g == 1 && q == 0 {
                assert(t[1].1[0] == keys[16]);
            } else if g == 1 && q == 1 {
                assert(t[1].1[1] == keys[17]);
            } else if g == 1 && q == 2 {
                assert(t[1].1[2] == keys[18]);
            } else if g == 1 && q == 3 {
                assert(t[1].1[3] == keys[19]);
            } else if g == 1 && q == 4 {
                assert(t[1].1[4] == keys[20]);
            } else if g == 1 && q == 5 {
                assert(t[1].1[5] == keys[21]);
            } else if g == 2 && q == 0 {
                assert(t[2].1[0] == keys[22]);
            } else if g == 3 && q == 0 {
                assert(t[3].1[0] == keys[23]);
            } else if g == 4 && q == 0 {
                assert(t[4].1[0] == keys[24]);
            } else if g == 5 && q == 0 {
                assert(t[5].1[0] == keys[25]);
            } else if g == 6 && q == 0 {
                assert(t[6].1[0] == keys[26]);
            } else if g == 7 && q == 0 {
                assert(t[7].1[0] == keys[27]);
            } else if g == 8 && q == 0 {
                assert(t[8].1[0] == keys[28]);
            } else if g == 9 && q == 0 {
                assert(t[9].1[0] == keys[29]);
            } else if g == 10 && q == 0 {
                assert(t[10].1[0] == keys[30]);
            } else if g == 11 && q == 0 {
                assert(t[11].1[0] == keys[31]);
            }
        }
    }
    law_other_keys_unchanged(m, k);
}

} // verus!
