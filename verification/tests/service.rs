use vrust::{chronoish_now_millis, redact_conn_str};

#[test]
fn redacts_password_token() {
    assert_eq!(
        redact_conn_str("host=127.0.0.1 port=5432 user=airflow password=SECRET-REDACTED dbname=viss"),
        "host=127.0.0.1 port=5432 user=airflow password=*** dbname=viss"
    );
}

#[test]
fn redacts_password_case_insensitively() {
    assert_eq!(redact_conn_str("PASSWORD=abc"), "password=***");
    assert_eq!(redact_conn_str("PaSsWoRd=abc"), "password=***");
}

#[test]
fn redaction_keeps_other_tokens_and_collapses_whitespace() {
    assert_eq!(redact_conn_str("  host=x \t password=y  dbname=z  "), "host=x password=*** dbname=z");
    assert_eq!(redact_conn_str(""), "");
    assert_eq!(redact_conn_str("   \t  "), "");
    assert_eq!(redact_conn_str("host=x dbname=y"), "host=x dbname=y");
    // `password=` must be the token's prefix.
    assert_eq!(redact_conn_str("xpassword=y"), "xpassword=y");
    assert_eq!(redact_conn_str("password"), "password");
}

#[test]
fn clock_stamp_is_after_known_past_instant() {
    // Milliseconds since the Unix epoch: any run of this test happens well
    // after 2020-09-13 (1.6e12 ms).
    let t = chronoish_now_millis();
    assert!(t > 1600000000000u128);
    assert!(chronoish_now_millis() >= t);
}
