use r3x::quantity::{parse_cpu, parse_memory, parse_u64};
use r3x::units::{render_cpu, render_memory, format_bytes};
use r3x::age::{format_age, format_age_since, format_age_pub};
use r3x::clock::{now_millis, millis_of, seconds_of};
use r3x::text::{split_lines, join, str_lt, str_contains, i64_to_string};
use r3x::json::{Json, get, as_str, as_u64, as_i64, object_size};

fn obj(pairs: Vec<(&str, Json)>) -> Json {
    Json::Object(pairs.into_iter().map(|(k, v)| (k.to_string(), v)).collect())
}

#[test]
fn cpu_quantities_in_millicores() {
    assert_eq!(parse_cpu("250m"), 250);
    assert_eq!(parse_cpu("500000000n"), 500);
    assert_eq!(parse_cpu("1500u"), 1);
    assert_eq!(parse_cpu("2"), 2000);
    assert_eq!(parse_cpu("1.5"), 1500);
    assert_eq!(parse_cpu("0.1"), 100);
    assert_eq!(parse_cpu("abc"), 0);
    assert_eq!(parse_cpu("1e3"), 1_000_000);
    assert_eq!(parse_cpu("2.5E-1"), 250);
    assert_eq!(parse_cpu("1e-4"), 0);
    assert_eq!(parse_cpu("1e30"), u64::MAX);
    assert_eq!(parse_cpu("inf"), u64::MAX);
    assert_eq!(parse_cpu("Infinity"), u64::MAX);
    assert_eq!(parse_cpu("-inf"), 0);
    assert_eq!(parse_cpu("NaN"), 0);
    assert_eq!(parse_cpu("-2"), 0);
    assert_eq!(parse_cpu("1e"), 0);
    assert_eq!(parse_cpu(".5"), 500);
}

#[test]
fn memory_quantities_in_bytes() {
    assert_eq!(parse_memory("128Mi"), 134217728);
    assert_eq!(parse_memory("1Gi"), 1073741824);
    assert_eq!(parse_memory("1Ki"), 1024);
    assert_eq!(parse_memory("2K"), 2000);
    assert_eq!(parse_memory("3M"), 3000000);
    assert_eq!(parse_memory("1G"), 1000000000);
    assert_eq!(parse_memory("1000"), 1000);
    assert_eq!(parse_memory("x"), 0);
}

#[test]
fn decimal_counts_parse() {
    assert_eq!(parse_u64("42"), Some(42));
    assert_eq!(parse_u64("18446744073709551615"), Some(u64::MAX));
    assert_eq!(parse_u64("18446744073709551616"), None);
    assert_eq!(parse_u64("4x"), None);
}

#[test]
fn cpu_and_memory_render() {
    assert_eq!(render_cpu(1500, true), "1.5 cores");
    assert_eq!(render_cpu(250, true), "250m");
    assert_eq!(render_cpu(1000, false), "1.0");
    assert_eq!(render_memory(1610612736, false), "1.5Gi");
    assert_eq!(render_memory(134217728, true), "128 Mi");
    assert_eq!(render_memory(2048, true), "2 Ki");
    assert_eq!(render_memory(100, true), "100 B");
}

#[test]
fn halves_round_to_even() {
    assert_eq!(render_memory(1572864, true), "2 Mi");
    assert_eq!(render_memory(2621440, true), "2 Mi");
    assert_eq!(render_memory(3670016, true), "4 Mi");
}

#[test]
fn byte_counts_render_in_decimal_units() {
    assert_eq!(format_bytes(999), "999 B");
    assert_eq!(format_bytes(1500), "1.5 KB");
    assert_eq!(format_bytes(2_500_000), "2.5 MB");
    assert_eq!(format_bytes(1_000_000_000), "1.0 GB");
}

#[test]
fn ages_in_days_hours_minutes() {
    assert_eq!(format_age(90061), "1d1h");
    assert_eq!(format_age(3700), "1h1m");
    assert_eq!(format_age(59), "0m");
    assert_eq!(format_age(-1), "?");
}

#[test]
fn ages_since_a_time() {
    assert_eq!(format_age_since(Some(100), 130), Some("30s".to_string()));
    assert_eq!(format_age_since(Some(0), 7200), Some("2h".to_string()));
    assert_eq!(format_age_since(Some(10), 5), Some("-5s".to_string()));
    assert_eq!(format_age_since(Some(0), 90000), Some("1d".to_string()));
    assert_eq!(format_age_since(Some(0), 600), Some("10m".to_string()));
    assert_eq!(format_age_since(None, 5), None);
}

fn unix_seconds() -> i64 {
    std::time::SystemTime::now().duration_since(std::time::UNIX_EPOCH).unwrap().as_secs() as i64
}

#[test]
fn age_against_the_clock() {
    let a = format_age_pub(Some(unix_seconds() - 7200)).unwrap();
    assert!(a == "2h" || a == "1h");
    assert_eq!(format_age_pub(None), None);
}

#[test]
fn clock_reads_the_present() {
    let before = unix_seconds() as u64 * 1000;
    let ms = now_millis();
    assert!(ms >= before);
    assert!(ms < before + 60_000);
}

#[test]
fn lines_as_str_lines_splits_them() {
    assert_eq!(split_lines("a\r\nb\n\nc\n"), vec!["a", "b", "", "c"]);
    assert_eq!(split_lines(""), Vec::<String>::new());
    assert_eq!(split_lines("x"), vec!["x"]);
}

#[test]
fn text_helpers() {
    assert_eq!(join(&vec!["a".to_string(), "b".to_string()], ","), "a,b");
    assert!(str_lt("a", "b"));
    assert!(!str_lt("b", "a"));
    assert!(str_lt("a", "ab"));
    assert!(str_contains("kubernetes.io/tls", "/"));
    assert_eq!(i64_to_string(-42), "-42");
}

#[test]
fn json_members_are_read() {
    let j = obj(vec![("a", Json::Str("x".to_string())), ("n", Json::UInt(7)), ("i", Json::Int(-3)), ("o", obj(vec![]))]);
    assert_eq!(as_str(get(Some(&j), "a")).map(|s| s.as_str()), Some("x"));
    assert_eq!(as_u64(get(Some(&j), "n")), Some(7));
    assert_eq!(as_u64(get(Some(&j), "i")), None);
    assert_eq!(as_i64(get(Some(&j), "i")), Some(-3));
    assert_eq!(object_size(get(Some(&j), "o")), Some(0));
    assert!(get(Some(&j), "missing").is_none());
}

#[test]
fn clock_readings_convert_to_seconds_and_millis() {
    assert_eq!(millis_of(true, 1_700_000_000_123), 1_700_000_000_123);
    assert_eq!(millis_of(false, 5_000), 0);
    assert_eq!(millis_of(true, (1u128 << 64) + 7), 7);
    assert_eq!(seconds_of(true, 1_700_000_000_999), 1_700_000_000);
    assert_eq!(seconds_of(false, 1_500), -2);
    assert_eq!(seconds_of(false, 2_000), -2);
    assert_eq!(seconds_of(true, u128::MAX), i64::MAX);
    assert_eq!(seconds_of(false, u128::MAX), i64::MIN);
}

#[test]
fn decimal_figures_follow_double_arithmetic() {
    assert_eq!(render_cpu(1050, false), "1.1");
    assert_eq!(render_cpu(1150, false), "1.1");
    assert_eq!(render_cpu(1250, false), "1.2");
    assert_eq!(render_cpu(1350, true), "1.4 cores");
    assert_eq!(render_cpu(2550, false), "2.5");
    assert_eq!(render_cpu(u64::MAX, false), "18446744073709552.0");
    assert_eq!(render_cpu(123456789012345678, false), "123456789012345.7");
    assert_eq!(format_bytes(1050), "1.1 KB");
    assert_eq!(format_bytes(1_150_000), "1.1 MB");
    assert_eq!(format_bytes(2_450_000_000), "2.5 GB");
    assert_eq!(format_bytes(u64::MAX), "18446744073.7 GB");
    assert_eq!(render_memory(u64::MAX, false), "17179869184.0Gi");
    assert_eq!(render_memory(3 * 1073741824 + 1073741824 / 20, true), "3.0 Gi");
}
