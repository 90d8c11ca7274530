use crypto_ca::otp::{
    has_broken_otp_line, issue_otp, lookup_otp, new_otp, otp_store_file, otp_text, record_otp, verify_otp, OTP_HIGH, OTP_LOW,
};

fn record(contents: &str, email: &str, otp: &str) -> String {
    String::from_utf8(record_otp(contents.as_bytes(), email.as_bytes(), otp.as_bytes())).unwrap()
}

fn verify(contents: &str, email: &str, otp: &str) -> bool {
    verify_otp(email.as_bytes(), otp.as_bytes(), contents.as_bytes())
}

#[test]
fn record_appends_new_email() {
    assert_eq!(record("", "alice@isen.fr", "123456"), "alice@isen.fr:123456\n");
    assert_eq!(
        record("bob@isen.fr:111111\n", "alice@isen.fr", "123456"),
        "bob@isen.fr:111111\nalice@isen.fr:123456\n"
    );
}

#[test]
fn record_appends_on_a_new_line() {
    assert_eq!(record("bob:1", "alice", "2"), "bob:1\nalice:2\n");
    assert!(verify(&record("bob:1", "alice", "2"), "alice", "2"));
}

#[test]
fn record_rewrites_existing_email() {
    assert_eq!(
        record("alice@isen.fr:111111\nbob@isen.fr:222222\n", "alice@isen.fr", "333333"),
        "alice@isen.fr:333333\nbob@isen.fr:222222\n"
    );
}

#[test]
fn record_rewrites_every_line_of_the_email_and_normalises_endings() {
    assert_eq!(
        record("a:1\r\nb:2\na:3", "a", "9"),
        "a:9\nb:2\na:9\n"
    );
}

#[test]
fn record_keeps_records_of_longer_emails() {
    assert_eq!(
        record("bob@isen.fr.eu:111111\n", "bob@isen.fr", "345678"),
        "bob@isen.fr.eu:111111\nbob@isen.fr:345678\n"
    );
}

#[test]
fn record_when_email_only_occurs_inside_a_line() {
    assert_eq!(
        record("xbob@isen.fr:111111\n", "bob@isen.fr", "345678"),
        "xbob@isen.fr:111111\nbob@isen.fr:345678\n"
    );
    assert!(verify(&record("xbob@isen.fr:111111\n", "bob@isen.fr", "345678"), "bob@isen.fr", "345678"));
}

#[test]
fn verify_accepts_stored_otp() {
    let store = "alice@isen.fr:123456\nbob@isen.fr:654321\n";
    assert!(verify(store, "alice@isen.fr", "123456"));
    assert!(verify(store, "bob@isen.fr", "654321"));
}

#[test]
fn verify_refuses_other_otp() {
    let store = "alice@isen.fr:123456\n";
    assert!(!verify(store, "alice@isen.fr", "123457"));
    assert!(!verify(store, "alice@isen.fr", ""));
    assert!(!verify(store, "carol@isen.fr", "123456"));
    assert!(!verify("", "alice@isen.fr", "123456"));
}

#[test]
fn verify_uses_first_matching_line_and_second_field() {
    assert!(verify("a:1\na:2\n", "a", "1"));
    assert!(!verify("a:1\na:2\n", "a", "2"));
    assert!(verify("a:1:extra\n", "a", "1"));
    assert!(verify("a:1\r\n", "a", "1"));
}

#[test]
fn lookup_reads_the_record_of_the_exact_email() {
    assert_eq!(lookup_otp(b"alice\n", b"alice"), None);
    assert_eq!(lookup_otp(b"alice:42\n", b"alice"), Some(b"42".to_vec()));
    assert_eq!(lookup_otp(b"bob:42\n", b"alice"), None);
    assert_eq!(lookup_otp(b"alicex:1\nalice:42\n", b"alice"), Some(b"42".to_vec()));
}

#[test]
fn verify_finds_own_record_after_longer_email() {
    let store = "alice@isen.fr.eu:111111\nalice@isen.fr:222222\n";
    assert!(verify(store, "alice@isen.fr", "222222"));
    assert!(!verify(store, "alice@isen.fr", "111111"));
}

#[test]
fn verify_refuses_empty_email() {
    assert!(!verify("alice@isen.fr:123456\n", "", "123456"));
    assert!(!verify(":123456\n", "", "123456"));
}

#[test]
fn recorded_otp_is_accepted_round_trip() {
    let stores = ["", "bob@isen.fr:111111\n", "alice@isen.fr:000000\nbob@isen.fr:1\n"];
    for store in stores {
        let updated = record(store, "alice@isen.fr", "482913");
        assert!(verify(&updated, "alice@isen.fr", "482913"));
        assert!(!verify(&updated, "alice@isen.fr", "482914"));
    }
}

#[test]
fn record_keeps_other_records() {
    let store = "alice@isen.fr:111111\nbob@isen.fr:222222\n";
    let updated = record(store, "alice@isen.fr", "999999");
    assert!(verify(&updated, "bob@isen.fr", "222222"));
    let appended = record(store, "carol@isen.fr", "333333");
    assert!(verify(&appended, "alice@isen.fr", "111111"));
    assert!(verify(&appended, "bob@isen.fr", "222222"));
}

#[test]
fn otp_text_is_decimal() {
    assert_eq!(otp_text(100000), b"100000".to_vec());
    assert_eq!(otp_text(999998), b"999998".to_vec());
    assert_eq!(otp_text(7), b"7".to_vec());
    assert_eq!(otp_text(4294967295), b"4294967295".to_vec());
}

#[test]
fn new_otp_is_six_digits_in_range() {
    for _ in 0..50 {
        let otp = new_otp();
        assert_eq!(otp.len(), 6);
        let n: u32 = String::from_utf8(otp.clone()).unwrap().parse().unwrap();
        assert!(OTP_LOW <= n && n < OTP_HIGH);
        let store = String::from_utf8(record_otp(b"", b"alice@isen.fr", &otp)).unwrap();
        assert!(verify(&store, "alice@isen.fr", std::str::from_utf8(&otp).unwrap()));
    }
}

#[test]
fn new_otp_draws_vary() {
    let first = new_otp();
    let mut varied = false;
    for _ in 0..20 {
        if new_otp() != first {
            varied = true;
        }
    }
    assert!(varied);
}

#[test]
fn store_file_names() {
    assert_eq!(otp_store_file("otp"), "otp.txt");
    assert_eq!(otp_store_file("otp_revoke"), "otp_revoke.txt");
}

#[test]
fn record_layout_keeps_other_lines_in_order() {
    let store = "a@x.fr:1\nb@x.fr:2\nc@x.fr:3\n";
    let updated = record(store, "b@x.fr", "9");
    assert_eq!(updated, "a@x.fr:1\nb@x.fr:9\nc@x.fr:3\n");
    assert_eq!(updated.lines().filter(|l| l.starts_with("b@x.fr:")).count(), 1);
    let added = record(store, "d@x.fr", "4");
    assert_eq!(added, "a@x.fr:1\nb@x.fr:2\nc@x.fr:3\nd@x.fr:4\n");
    assert!(added.ends_with('\n'));
}

#[test]
fn broken_lines_are_detected() {
    assert!(has_broken_otp_line(b"bob@isen.fr\n", b"bob@isen.fr"));
    assert!(has_broken_otp_line(b"bob@isen.fr.eu\nbob@isen.fr:1\n", b"bob@isen.fr"));
    assert!(!has_broken_otp_line(b"bob@isen.fr:1\n", b"bob@isen.fr"));
    assert!(!has_broken_otp_line(b"alice:1\n", b"bob@isen.fr"));
}

#[test]
fn verify_compares_bytes() {
    assert!(!verify_otp(b"a", &[0xff, 0xfe], b"a:123456\n"));
    assert!(verify_otp(b"a", &[0xff], b"a:\xff\n"));
}

#[test]
fn issued_password_is_the_mailed_one() {
    let issue = issue_otp("alice@isen.fr", "OTP", "Voici votre OTP :");
    assert_eq!(issue.otp.len(), 6);
    let mut body = b"Voici votre OTP :".to_vec();
    body.extend_from_slice(&issue.otp);
    assert_eq!(issue.mail.body, body);
    assert_eq!(issue.mail.to, "alice@isen.fr");
    let store = String::from_utf8(record_otp(b"", b"alice@isen.fr", &issue.otp)).unwrap();
    assert!(verify(&store, "alice@isen.fr", std::str::from_utf8(&issue.otp).unwrap()));
}
