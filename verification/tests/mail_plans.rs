use crypto_ca::mail::{certificate_mail, certificate_only_mail, otp_mail};

#[test]
fn otp_mail_carries_message_then_password() {
    let plan = otp_mail("alice@isen.fr", "OTP", "Voici votre OTP :", b"123456");
    assert_eq!(plan.from, "projetcryptoca@gmail.com");
    assert_eq!(plan.to, "alice@isen.fr");
    assert_eq!(plan.subject, "OTP");
    assert_eq!(plan.body, "Voici votre OTP :123456".as_bytes().to_vec());
    assert!(plan.attachments.is_empty());
    assert!(!plan.attachments_nested);
}

#[test]
fn certificate_mail_attaches_certificate_and_chain() {
    let plan = certificate_mail("alice@isen.fr");
    assert_eq!(plan.to, "alice@isen.fr");
    assert_eq!(plan.subject, "File");
    assert_eq!(plan.body, "Votre certificats est joint ci-dessus : ".as_bytes().to_vec());
    assert!(plan.attachments_nested);
    assert!(plan.attachments.iter().all(|a| a.content_type == "application/x-pem-file"));
    let files: Vec<(String, String)> =
        plan.attachments.iter().map(|a| (a.path.clone(), a.name.clone())).collect();
    assert_eq!(
        files,
        vec![
            ("./new_certs_client/alice@isen.fr.pem".to_string(), "alice@isen.fr.pem".to_string()),
            ("./Certificats/offline/ACI/cacert.pem".to_string(), "ISEN_ACI.pem".to_string()),
            ("./Certificats/offline/ACR/cacert.pem".to_string(), "ISEN_ACR.pem".to_string()),
        ]
    );
}

#[test]
fn certificate_only_mail_attaches_one_file() {
    let plan = certificate_only_mail("bob@isen.fr");
    assert_eq!(plan.attachments.len(), 1);
    assert_eq!(
        plan.attachments[0].path,
        "/home/hugo/ISEN/Cours/Cryptographie/CryptoWebsiteCA/CryptoProject/new_certs_client/bob@isen.fr.pem"
    );
    assert_eq!(plan.attachments[0].name, "bob@isen.fr.pem");
    assert_eq!(plan.attachments[0].content_type, "application/x-pem-file");
    assert!(!plan.attachments_nested);
}
