use neb_offload::config::{parse_args, usage, wants_help, Config, HARD_CAP};

/// The socket addresses among the arguments below.
const ADDRESSES: [&str; 2] = ["127.0.0.1:1", "[::1]:2"];

fn parse(args: &[&str]) -> Result<Config, String> {
    let args: Vec<String> = args.iter().map(|a| a.to_string()).collect();
    let is_addr: Vec<bool> = args.iter().map(|a| ADDRESSES.contains(&a.as_str())).collect();
    parse_args(&args, &is_addr, 7)
}

fn complaint(args: &[&str]) -> String {
    parse(args).err().unwrap()
}

#[test]
fn defaults_apply() {
    let cfg = parse(&[]).ok().unwrap();
    assert_eq!(cfg.listen, "0.0.0.0:19999");
    assert_eq!(cfg.metrics_listen.as_deref(), Some("0.0.0.0:9100"));
    assert_eq!(cfg.threads, 7);
    assert_eq!(cfg.level, 3);
    assert_eq!(cfg.window_log, 23);
    assert_eq!(cfg.max_payload, 8 * 1024 * 1024);
    assert_eq!(cfg.gc_secs, 600);
}

#[test]
fn every_option_is_taken() {
    let cfg = parse(&[
        "--listen",
        "127.0.0.1:1",
        "--metrics-listen",
        "[::1]:2",
        "--threads",
        "3",
        "--level",
        "22",
        "--window-log",
        "25",
        "--max-payload",
        "67108864",
        "--gc-secs",
        "18446744073709551615",
    ])
    .ok()
    .unwrap();
    assert_eq!(cfg.listen, "127.0.0.1:1");
    assert_eq!(cfg.metrics_listen.as_deref(), Some("[::1]:2"));
    assert_eq!(cfg.threads, 3);
    assert_eq!(cfg.level, 22);
    assert_eq!(cfg.window_log, 25);
    assert_eq!(cfg.max_payload, HARD_CAP);
    assert_eq!(cfg.gc_secs, u64::MAX);
}

#[test]
fn the_last_value_counts() {
    let cfg = parse(&["--level", "5", "--threads", "2", "--level", "9"])
        .ok()
        .unwrap();
    assert_eq!(cfg.level, 9);
    assert_eq!(cfg.threads, 2);
}

#[test]
fn metrics_can_be_switched_off() {
    for off in ["off", "OFF", "oFf"] {
        let cfg = parse(&["--metrics-listen", off]).ok().unwrap();
        assert!(cfg.metrics_listen.is_none());
    }
    assert_eq!(
        complaint(&["--metrics-listen", "offf"]),
        "invalid value 'offf' for --metrics-listen"
    );
}

#[test]
fn numbers_are_read_as_the_language_reads_them() {
    assert_eq!(parse(&["--level", "+7"]).ok().unwrap().level, 7);
    assert_eq!(parse(&["--level", "0007"]).ok().unwrap().level, 7);
    assert_eq!(parse(&["--gc-secs", "+1"]).ok().unwrap().gc_secs, 1);
    for bad in ["", "+", "-", "1 ", " 1", "1.0", "x", "--1", "\u{0663}", "99999999999999999999999999"] {
        assert!(bad.parse::<i32>().is_err());
        assert_eq!(
            complaint(&["--level", bad]),
            format!("invalid value '{bad}' for --level")
        );
        assert_eq!(
            complaint(&["--gc-secs", bad]),
            format!("invalid value '{bad}' for --gc-secs")
        );
    }
    assert_eq!(complaint(&["--level", "-1"]), "--level must be in 1..=22");
    assert_eq!(
        complaint(&["--level", "-2147483648"]),
        "--level must be in 1..=22"
    );
    assert_eq!(
        complaint(&["--level", "-2147483649"]),
        "invalid value '-2147483649' for --level"
    );
    assert_eq!(
        complaint(&["--gc-secs", "-1"]),
        "invalid value '-1' for --gc-secs"
    );
    assert_eq!(
        complaint(&["--gc-secs", "18446744073709551616"]),
        "invalid value '18446744073709551616' for --gc-secs"
    );
    assert_eq!(
        complaint(&["--window-log", "4294967296"]),
        "invalid value '4294967296' for --window-log"
    );
}

#[test]
fn values_out_of_range_are_refused() {
    assert_eq!(complaint(&["--threads", "0"]), "--threads must be >= 1");
    assert_eq!(complaint(&["--level", "0"]), "--level must be in 1..=22");
    assert_eq!(complaint(&["--level", "23"]), "--level must be in 1..=22");
    assert_eq!(
        complaint(&["--window-log", "20"]),
        "--window-log must be in 21..=25"
    );
    assert_eq!(
        complaint(&["--window-log", "26"]),
        "--window-log must be in 21..=25"
    );
    assert_eq!(
        complaint(&["--max-payload", "0"]),
        "--max-payload must be in 1..=67108864"
    );
    assert_eq!(
        complaint(&["--max-payload", "67108865"]),
        "--max-payload must be in 1..=67108864"
    );
    assert_eq!(complaint(&["--gc-secs", "0"]), "--gc-secs must be >= 1");
}

#[test]
fn malformed_command_lines_are_refused() {
    assert_eq!(complaint(&["--level"]), "missing value for --level");
    assert_eq!(complaint(&["--bogus"]), "missing value for --bogus");
    assert_eq!(complaint(&["--bogus", "1"]), "unknown option '--bogus'");
    assert_eq!(
        complaint(&["--listen", "nowhere"]),
        "invalid value 'nowhere' for --listen"
    );
    // The first complaint is the one that is made.
    assert_eq!(
        complaint(&["--level", "99", "--bogus", "1"]),
        "--level must be in 1..=22"
    );
    assert_eq!(
        complaint(&["--level", "9", "--threads"]),
        "missing value for --threads"
    );
}

#[test]
fn help_is_asked_for_anywhere() {
    let args = |list: &[&str]| -> Vec<String> { list.iter().map(|a| a.to_string()).collect() };
    assert!(wants_help(&args(&["--help"])));
    assert!(wants_help(&args(&["--level", "-h"])));
    assert!(!wants_help(&args(&["--level", "3", "-H", "help"])));
    assert!(!wants_help(&args(&[])));
}

#[test]
fn usage_text_is_as_expected() {
    let want = format!(
        "neb-zstd-server — remote zstd offload server for NotEnoughBandwidth (UCX/RoCE)

USAGE:
    neb-zstd-server [OPTIONS]

OPTIONS:
    --listen ADDR:PORT   Listen address (default: {})
    --metrics-listen ADDR:PORT
                         Prometheus metrics endpoint serving GET /metrics
                         (default: {}, \"off\" to disable)
    --threads N          Serve worker threads (default: available parallelism)
    --level N            zstd compression level, 1..=22 (default: {})
    --window-log N       zstd window log, 21..=25 (default: {})
    --max-payload BYTES  Largest accepted request payload (default: {},
                         hard cap {})
    --gc-secs SECONDS    Drop per-connection contexts idle this long (default: {})
    --help               Print this help",
        "0.0.0.0:19999", "0.0.0.0:9100", 3, 23, 8388608, 67108864, 600
    );
    assert_eq!(usage(), want);
}
