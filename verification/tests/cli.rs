use rushtle::cli::{log_level, parse_assembler_bytes, shim, Shim};

#[test]
fn announced_bytes() {
    assert_eq!(parse_assembler_bytes("import sys; exec(sys.stdin.read(1823))"), 1823);
    assert_eq!(parse_assembler_bytes("stdin.read( 42 ) stdin.read(7)"), 42);
    assert_eq!(parse_assembler_bytes("stdin.read(x) stdin.read(7)"), 0);
    assert_eq!(parse_assembler_bytes("stdin.read(7"), 0);
    assert_eq!(parse_assembler_bytes("stdin.read()"), 0);
    assert_eq!(parse_assembler_bytes("print(1)"), 0);
    assert_eq!(parse_assembler_bytes("stdin.read(18446744073709551616)"), 0);
}

#[test]
fn shims() {
    let argv = |v: &[&str]| v.iter().map(|s| s.to_string()).collect::<Vec<String>>();
    assert_eq!(
        shim(&argv(&["rushtle", "-c", "verbosity=1; stdin.read(5)"])),
        Some(Shim { assembler_bytes: 5, verbose: 1 })
    );
    assert_eq!(
        shim(&argv(&["rushtle", "-c", "verbosity=2;", "more"])),
        Some(Shim { assembler_bytes: 0, verbose: 2 })
    );
    assert_eq!(shim(&argv(&["rushtle", "-c", ""])), Some(Shim { assembler_bytes: 0, verbose: 0 }));
    assert_eq!(shim(&argv(&["rushtle", "-c"])), None);
    assert_eq!(shim(&argv(&["rushtle", "server", "-c"])), None);
    assert_eq!(shim(&argv(&[])), None);
}

#[test]
fn levels() {
    assert_eq!(log_level(0), "info");
    assert_eq!(log_level(1), "info");
    assert_eq!(log_level(2), "debug");
    assert_eq!(log_level(3), "trace");
    assert_eq!(log_level(255), "trace");
}
