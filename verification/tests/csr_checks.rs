use crypto_ca::csr::{
    check_csr, create_cert_args, csr_matches_email, csr_readable_text, csr_upload_path,
    get_csr_subject, revoke_cert_args,
};

const ALICE_CSR: &str = "-----BEGIN CERTIFICATE REQUEST-----
MIIBbTCB1wIBADAuMQ4wDAYDVQQDDAVBbGljZTEcMBoGCSqGSIb3DQEJARYNYWxp
Y2VAaXNlbi5mcjCBnzANBgkqhkiG9w0BAQEFAAOBjQAwgYkCgYEAvy5UCPDObhwj
OXUh+ym83afwIhEPzwVB7sxTMyS6YM5YSms6ZU3AeKJR/TrWHwQ3BMOGJrjnvoTK
jNGpmIc8IugV44OpXiErkTwF+DeOCWiy96Mv2VMIuOykNvts6EfRL5P8TXWlXbbi
4mp1WfyJDragiJzAOT/xaFjah0Ss7x8CAwEAAaAAMA0GCSqGSIb3DQEBCwUAA4GB
ALbAuIimxPmCVbk9uMMuBgtgWD+rNi65Tk8zzzd3zYZRWQOCowdQPol+1Psue6pD
wKDUwMsKKAaqysX6chHmdvXGAOUoNirRsTA4bvotPyBtXNnJykk/qGibmG7rNjZX
JC0jTQcU5tDorreUBmczFBOG1mRLkB6BMUchSpcJsHGx
-----END CERTIFICATE REQUEST-----
";

const BOB_CSR_WITHOUT_EMAIL: &str = "-----BEGIN CERTIFICATE REQUEST-----
MIIBTTCBtwIBADAOMQwwCgYDVQQDDANCb2IwgZ8wDQYJKoZIhvcNAQEBBQADgY0A
MIGJAoGBALOb7WSNB6tIY927f4xCcAJsxiP1P6o+7B3Y/iAd/H4ds6lZKHTjEeoK
QON9Ec2RYRdBvvfptM9v6olSf4eorIf92/E4qkxY7Gg/EP8yeYfPHmP7PS0lpT2i
teOpYl6EEDTnn84s2F5fdrRhGStdg/fqpVMTlBcgDy0n/mHKncMjAgMBAAGgADAN
BgkqhkiG9w0BAQsFAAOBgQArMpvVvFHdMn2CI3UYHGAGNTIktc/zr5ar23u5gkJy
jp6buyAzCDZBbF49KYQ2oenKy62Lt/BFm+KKGFQSzxe1bDHZtQGsH5kBnw8XnVe/
ZA80WG8UkfrW3W1WxL0ObB+wF7RfwmrLDxvp9vCvtsupCU7o7kQAY7n1vgIKdKeb
1g==
-----END CERTIFICATE REQUEST-----
";

#[test]
fn subject_email_is_read_from_request() {
    assert_eq!(get_csr_subject(ALICE_CSR.as_bytes()), Ok("alice@isen.fr".to_string()));
}

#[test]
fn unreadable_request_is_an_error() {
    match get_csr_subject(b"hello") {
        Err(m) => assert!(m.starts_with("Erreur lors de la lecture du CSR : ")),
        Ok(s) => panic!("read {}", s),
    }
    assert_eq!(csr_matches_email("alice@isen.fr", b"not a request"), None);
}

#[test]
fn request_without_email_cannot_be_checked() {
    assert_eq!(csr_matches_email("bob@isen.fr", BOB_CSR_WITHOUT_EMAIL.as_bytes()), None);
}

#[test]
fn request_matches_its_email_only() {
    assert!(check_csr("alice@isen.fr", ALICE_CSR.as_bytes()));
    assert!(!check_csr("bob@isen.fr", ALICE_CSR.as_bytes()));
    assert_eq!(csr_matches_email("alice@isen.fr", ALICE_CSR.as_bytes()), Some(true));
    assert_eq!(csr_matches_email("ALICE@isen.fr", ALICE_CSR.as_bytes()), Some(false));
}

#[test]
fn upload_path_of_request() {
    assert_eq!(csr_upload_path("alice@isen.fr"), "./tmp/alice@isen.fr.csr");
}

#[test]
fn issue_command_arguments() {
    assert_eq!(
        create_cert_args("alice@isen.fr", "./tmp/alice@isen.fr.csr"),
        vec![
            "ca",
            "-keyfile",
            "Certificats/offline/ACI/private.key",
            "-cert",
            "Certificats/offline/ACI/cacert.pem",
            "-config",
            "Certificats/offline/config/openssl.cnf",
            "-in",
            "./tmp/alice@isen.fr.csr",
            "-out",
            "new_certs_client/alice@isen.fr.pem",
            "-extensions",
            "myCA_extensions",
            "-batch",
        ]
    );
}

#[test]
fn revoke_command_arguments() {
    assert_eq!(
        revoke_cert_args("alice@isen.fr"),
        vec![
            "ca",
            "-keyfile",
            "Certificats/offline/ACI/private.key",
            "-cert",
            "Certificats/offline/ACI/cacert.pem",
            "-revoke",
            "new_certs_client/alice@isen.fr.pem",
            "-config",
            "Certificats/offline/config/openssl.cnf",
        ]
    );
}

#[test]
fn readable_texts() {
    assert!(csr_readable_text(ALICE_CSR.as_bytes()));
    assert!(csr_readable_text(b""));
    assert!(!csr_readable_text(b"-----BEGIN X-----\nProc-Type: 4,ENCRYPTED\nDEK-Info: AES-128-CBC,00\n"));
    assert!(!csr_readable_text(b"-----BEGIN X-----\nProc-Type:4,ENCRYPTED\n"));
}
