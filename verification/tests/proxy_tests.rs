use ksud::proxy::{forwarded_args, proxy_exit_code, GENERIC_FAILURE_CODE};

#[test]
fn exit_code_transparency() {
    assert_eq!(proxy_exit_code(Some(0)), 0);
    assert_eq!(proxy_exit_code(Some(42)), 42);
    assert_eq!(proxy_exit_code(Some(255)), 255);
}

#[test]
fn generic_failure_fallback() {
    assert_eq!(proxy_exit_code(None), GENERIC_FAILURE_CODE);
    assert_eq!(proxy_exit_code(None), -1);
    assert_ne!(proxy_exit_code(None), 0);
}

#[test]
fn forwarded_args_discards_program_name() {
    let args = vec![
        "proxy".to_string(),
        "wifi".to_string(),
        "status".to_string(),
    ];
    assert_eq!(
        forwarded_args(&args),
        vec!["wifi".to_string(), "status".to_string()]
    );
}

#[test]
fn forwarded_args_on_short_lists() {
    assert_eq!(forwarded_args(&Vec::new()), Vec::<String>::new());
    assert_eq!(
        forwarded_args(&vec!["proxy".to_string()]),
        Vec::<String>::new()
    );
}
