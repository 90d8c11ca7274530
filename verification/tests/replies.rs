use crypto_ca::reply::{
    certificates_sent_reply, otp_checked_reply, otp_sent_reply, revocation_allowed,
    revocation_reply, upload_step, upload_without_session_reply, OtpPurpose, Page, Reply,
    UploadAction, UploadEvent,
};

fn page_of(r: &Reply) -> (Page, String, String) {
    match r {
        Reply::Page { page, email, message } => (*page, email.clone(), message.clone()),
        Reply::Plain { body } => panic!("plain reply {}", body),
    }
}

fn plain_of(r: &Reply) -> String {
    match r {
        Reply::Plain { body } => body.clone(),
        Reply::Page { .. } => panic!("page reply"),
    }
}

#[test]
fn templates() {
    assert_eq!(Page::Otp.template(), "otp.html");
    assert_eq!(Page::UploadCsr.template(), "upload_csr.html");
}

#[test]
fn otp_purposes() {
    assert_eq!(OtpPurpose::Login.store_name(), "otp");
    assert_eq!(OtpPurpose::Login.subject(), "OTP");
    assert_eq!(OtpPurpose::Login.message(), "Voici votre OTP :");
    assert_eq!(OtpPurpose::Revocation.store_name(), "otp_revoke");
    assert_eq!(OtpPurpose::Revocation.subject(), "OTP de révocation");
    assert_eq!(
        OtpPurpose::Revocation.message(),
        "Voici votre OTP de révocation pour le certificat: "
    );
}

#[test]
fn otp_pages() {
    assert_eq!(page_of(&otp_sent_reply("a@b.fr")), (Page::Otp, "a@b.fr".to_string(), String::new()));
    assert_eq!(
        page_of(&otp_checked_reply(Some("a@b.fr"), true)),
        (Page::UploadCsr, "a@b.fr".to_string(), String::new())
    );
    assert_eq!(
        page_of(&otp_checked_reply(Some("a@b.fr"), false)),
        (Page::Otp, "a@b.fr".to_string(), "WRONG OTP".to_string())
    );
    assert_eq!(plain_of(&otp_checked_reply(None, true)), "404 error mail not found in");
}

#[test]
fn certificate_and_revocation_pages() {
    assert_eq!(
        page_of(&certificates_sent_reply(Some("a@b.fr"))).2,
        "Vos fichiers ont été envoyés !"
    );
    assert_eq!(plain_of(&certificates_sent_reply(None)), "404 error mail not found in");
    assert_eq!(
        page_of(&revocation_reply(Some("a@b.fr"), true)),
        (Page::UploadCsr, "a@b.fr".to_string(), "otre certificat a été révoqué".to_string())
    );
    assert_eq!(page_of(&revocation_reply(Some("a@b.fr"), false)).2, "WRONG OTP");
    assert_eq!(plain_of(&revocation_reply(None, true)), "404 error mail not found in");
    assert!(revocation_allowed(true, true));
    assert!(!revocation_allowed(true, false));
    assert!(!revocation_allowed(false, true));
    assert_eq!(plain_of(&upload_without_session_reply()), "404 error email not found in");
}

fn respond_message(a: UploadAction) -> String {
    match a {
        UploadAction::Respond { reply } => page_of(&reply).2,
        _ => panic!("not a response"),
    }
}

#[test]
fn upload_steps_happy_path() {
    let e = "a@b.fr";
    match upload_step(e, UploadEvent::Received { has_file: true }) {
        UploadAction::StoreCsr { path } => assert_eq!(path, "./tmp/a@b.fr.csr"),
        _ => panic!("expected StoreCsr"),
    }
    match upload_step(e, UploadEvent::Stored) {
        UploadAction::CheckCsr { path } => assert_eq!(path, "./tmp/a@b.fr.csr"),
        _ => panic!("expected CheckCsr"),
    }
    match upload_step(e, UploadEvent::CsrChecked { matches: true }) {
        UploadAction::CreateCert { path } => assert_eq!(path, "./tmp/a@b.fr.csr"),
        _ => panic!("expected CreateCert"),
    }
    assert!(matches!(upload_step(e, UploadEvent::CertCreated { created: true }), UploadAction::Deliver));
    assert_eq!(
        respond_message(upload_step(e, UploadEvent::Delivered)),
        "Certificat crée ! Vos fichiers ont été envoyés !"
    );
}

#[test]
fn upload_steps_that_stop_early() {
    let e = "a@b.fr";
    assert_eq!(
        respond_message(upload_step(e, UploadEvent::Received { has_file: false })),
        "Le input pour la transmition de la CSR est vide !"
    );
    assert_eq!(
        respond_message(upload_step(e, UploadEvent::CsrChecked { matches: false })),
        "Le CSR et votre e-mail ne correspondent pas."
    );
    assert_eq!(
        respond_message(upload_step(e, UploadEvent::CertCreated { created: false })),
        "Veuillez révoquer votre CSR avant d'en créer un autre !"
    );
}

#[test]
fn upload_is_answered_within_five_steps() {
    for outcome in 0..4u8 {
        let mut event = UploadEvent::Received { has_file: outcome != 0 };
        let mut steps = 0;
        loop {
            steps += 1;
            assert!(steps <= 5);
            event = match upload_step("a@b.fr", event) {
                UploadAction::StoreCsr { .. } => UploadEvent::Stored,
                UploadAction::CheckCsr { .. } => UploadEvent::CsrChecked { matches: outcome != 1 },
                UploadAction::CreateCert { .. } => UploadEvent::CertCreated { created: outcome != 2 },
                UploadAction::Deliver => UploadEvent::Delivered,
                UploadAction::Respond { .. } => break,
            };
        }
    }
}
