use doty::text::{
    contains, decimal_string, ends_with, human_size, join, push_padded, scaled_size, starts_with, str_lt,
};
use doty::tokens::{
    count_lines_mentioning, first_word_of_lines, parse_u64, split_on, split_words, trim, trim_end,
};

fn float_size(bytes: u64) -> String {
    let units = ["B", "KiB", "MiB", "GiB", "TiB"];
    let mut size = bytes as f64;
    let mut unit_idx = 0;
    while size >= 1024.0 && unit_idx < units.len() - 1 {
        size /= 1024.0;
        unit_idx += 1;
    }
    format!("{:.1} {}", size, units[unit_idx])
}

#[test]
fn human_size_exact_values() {
    assert_eq!(human_size(0), "0.0 B");
    assert_eq!(human_size(1023), "1023.0 B");
    assert_eq!(human_size(1024), "1.0 KiB");
    assert_eq!(human_size(1536), "1.5 KiB");
    assert_eq!(human_size(1280), "1.2 KiB");
    assert_eq!(human_size(1048576), "1.0 MiB");
    assert_eq!(human_size(5 * 1024 * 1024 * 1024), "5.0 GiB");
    assert_eq!(human_size(2048 * 1024 * 1024 * 1024 * 1024), "2048.0 TiB");
}

#[test]
fn human_size_agrees_with_float_formatting() {
    let mut samples: Vec<u64> = Vec::new();
    for n in 0..5000u64 {
        samples.push(n);
    }
    for k in 1..5u32 {
        let base = 1024u64.pow(k);
        for t in 0..4000u64 {
            samples.push(base / 10 * t / 4 + t);
            samples.push(base + t * 13);
            samples.push(base * t / 20);
            samples.push(base * t / 20 + base / 20 / 2);
        }
    }
    let mut x: u64 = 0x9e37_79b9_7f4a_7c15;
    for _ in 0..20000 {
        x ^= x << 13;
        x ^= x >> 7;
        x ^= x << 17;
        samples.push(x);
        samples.push(x >> 20);
        samples.push(x >> 40);
    }
    samples.push(u64::MAX);
    samples.push((1u64 << 53) + 1);
    samples.push((1u64 << 54) + 3);
    for b in samples {
        assert_eq!(human_size(b), float_size(b), "bytes = {}", b);
    }
}

#[test]
fn scaled_size_matches_quotient_with_one_decimal() {
    assert_eq!(scaled_size(1536, 1), "1.5");
    assert_eq!(scaled_size(3 * 1024 * 1024 * 1024, 3), "3.0");
    assert_eq!(scaled_size(512, 0), "512.0");
    for b in [0u64, 1, 999, 123456789, 987654321012, u64::MAX] {
        for k in 0..5u32 {
            let expect = format!("{:.1}", b as f64 / 1024f64.powi(k as i32));
            assert_eq!(scaled_size(b, k as u64), expect);
        }
    }
}

#[test]
fn decimal_string_matches_display() {
    for n in [0u64, 7, 10, 99, 100, 12345, u64::MAX] {
        assert_eq!(decimal_string(n), n.to_string());
    }
}

#[test]
fn searching_and_joining() {
    assert!(starts_with("/home/can", "/home"));
    assert!(!starts_with("/ho", "/home"));
    assert!(ends_with("file.gguf", ".gguf"));
    assert!(!ends_with("gguf", ".gguf"));
    assert!(contains("systemd-run.scope", ".scope"));
    assert!(contains("abc", ""));
    assert!(!contains("abc", "abd"));
    let parts = vec!["/".to_string(), "/home".to_string(), "/nix".to_string()];
    assert_eq!(join(&parts, ", "), "/, /home, /nix");
    assert_eq!(join(&Vec::new(), ", "), "");
    assert!(str_lt("/home", "/nix"));
    assert!(str_lt("/a", "/a/b"));
    assert!(!str_lt("/b", "/a"));
    assert!(!str_lt("same", "same"));
}

#[test]
fn padding_fills_to_width() {
    let mut out = String::from("[");
    push_padded(&mut out, "ab", 5);
    out.push(']');
    assert_eq!(out, format!("[{:<5}]", "ab"));
    let mut long = String::new();
    push_padded(&mut long, "abcdef", 3);
    assert_eq!(long, "abcdef");
}

#[test]
fn splitting_matches_std() {
    for s in ["", "a", "a\nb", "a\n", "\n\n", "x y\n z"] {
        let ours = split_on(s, '\n');
        let theirs: Vec<String> = s.split('\n').map(|p| p.to_string()).collect();
        assert_eq!(ours, theirs);
        let w: Vec<String> = s.split_whitespace().map(|p| p.to_string()).collect();
        assert_eq!(split_words(s), w);
    }
    assert_eq!(split_words("  Filesystem   1B-blocks \t Used "), vec!["Filesystem", "1B-blocks", "Used"]);
}

#[test]
fn trimming_matches_std() {
    for s in ["", "  ", " a b ", "\tx\n", "abc"] {
        assert_eq!(trim(s), s.trim());
    }
    assert_eq!(trim_end("/home///", '/'), "/home");
    assert_eq!(trim_end("///", '/'), "");
    assert_eq!(trim_end("abc", '/'), "abc");
}

#[test]
fn parse_u64_matches_from_str() {
    for s in ["0", "42", "+7", "", "+", "-1", "1a", " 1", "18446744073709551615", "18446744073709551616", "007"] {
        assert_eq!(parse_u64(s), s.parse::<u64>().ok(), "input {:?}", s);
    }
}

#[test]
fn line_helpers() {
    let text = "run-1.scope loaded\nuser.slice\nrun-2.scope\n";
    let needles = vec![".scope".to_string()];
    assert_eq!(count_lines_mentioning(text, &needles), 2);
    assert_eq!(count_lines_mentioning("", &needles), 0);
    assert_eq!(count_lines_mentioning(text, &Vec::new()), 0);
    assert_eq!(first_word_of_lines("a.service loaded failed\n\n  b.timer x\n"), vec!["a.service", "b.timer"]);
}
