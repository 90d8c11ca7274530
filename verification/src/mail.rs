//! The e-mails the portal sends: the one-time passwords and the issued
//! certificates, as plans that the transport turns into messages.

use vstd::prelude::*;
use crate::text::push_all;
use vstd::string::StringSliceAdditionalSpecFns;

verus! {

/// The address the portal sends from (and logs into the relay with).
pub open spec fn sender() -> Seq<char> {
    "projetcryptoca@gmail.com"@
}

/// The subject of the certificate e-mails.
pub open spec fn certificate_subject() -> Seq<char> {
    "File"@
}

/// The text of the certificate e-mails.
pub open spec fn certificate_text() -> Seq<char> {
    "Votre certificats est joint ci-dessus : "@
}

/// The content type of the certificate files attached.
pub open spec fn pem_content_type() -> Seq<char> {
    "application/x-pem-file"@
}

/// A file attached to an e-mail: where it is read from, the name it is
/// given in the message, and its content type.
pub struct Attachment {
    pub path: String,
    pub name: String,
    pub content_type: String,
}

/// An e-mail to send: sender, recipient, subject, text (as bytes) and the
/// files attached after the text; with `attachments_nested`, the files go
/// into a mixed part of their own that follows the text, otherwise each
/// follows the text directly.
pub struct MailPlan {
    pub from: String,
    pub to: String,
    pub subject: String,
    pub body: Vec<u8>,
    pub attachments: Vec<Attachment>,
    pub attachments_nested: bool,
}

/// The view of an attachment: path, name and content type.
pub open spec fn attachment_view(a: Attachment) -> (Seq<char>, Seq<char>, Seq<char>) {
    (a.path@, a.name@, a.content_type@)
}

/// The views of a list of attachments.
pub open spec fn attachments_view(v: Seq<Attachment>) -> Seq<(Seq<char>, Seq<char>, Seq<char>)> {
    v.map_values(|a: Attachment| attachment_view(a))
}

/// The e-mail that carries a one-time password: to `email`, with the given
/// subject, its text being `message` followed by the password.
pub fn otp_mail(email: &str, subject: &str, message: &str, otp: &[u8]) -> (r: MailPlan)
    ensures
        r.from@ == sender(),
        r.to@ == email@,
        r.subject@ == subject@,
        r.body@ == message.spec_bytes() + otp@,
        r.attachments@.len() == 0,
        !r.attachments_nested,
{
    let mut body: Vec<u8> = Vec::new();
    push_all(&mut body, message.as_bytes());
    push_all(&mut body, otp);
    MailPlan {
        from: String::from_str("projetcryptoca@gmail.com"),
        to: String::from_str(email),
        subject: String::from_str(subject),
        body,
        attachments: Vec::new(),
        attachments_nested: false,
    }
}

/// A PEM file attached from `path` under the name `name`.
fn attachment(path: String, name: String) -> (r: Attachment)
    ensures
        r.path == path,
        r.name == name,
        r.content_type@ == pem_content_type(),
{
    Attachment { path, name, content_type: String::from_str("application/x-pem-file") }
}

/// The e-mail of the certificate text to `email` with the given attachments.
fn certificate_mail_with(email: &str, attachments: Vec<Attachment>, nested: bool) -> (r: MailPlan)
    ensures
        r.attachments_nested == nested,
        r.from@ == sender(),
        r.to@ == email@,
        r.subject@ == certificate_subject(),
        r.body@ == vstd::utf8::encode_utf8(certificate_text()),
        r.attachments == attachments,
{
    let text = "Votre certificats est joint ci-dessus : ";
    let mut body: Vec<u8> = Vec::new();
    push_all(&mut body, text.as_bytes());
    MailPlan {
        from: String::from_str("projetcryptoca@gmail.com"),
        to: String::from_str(email),
        subject: String::from_str("File"),
        body,
        attachments,
        attachments_nested: nested,
    }
}

/// The e-mail that delivers a certificate with its chain: to `email`, the
/// certificate issued to `email` (`./new_certs_client/<email>.pem`, named
/// `<email>.pem`), then the certificates of the intermediate
/// (`ISEN_ACI.pem`) and root (`ISEN_ACR.pem`) authorities.
pub fn certificate_mail(email: &str) -> (r: MailPlan)
    ensures
        r.from@ == sender(),
        r.to@ == email@,
        r.subject@ == certificate_subject(),
        r.body@ == vstd::utf8::encode_utf8(certificate_text()),
        attachments_view(r.attachments@) =~= seq![
            ("./new_certs_client/"@ + email@ + ".pem"@, email@ + ".pem"@, pem_content_type()),
            ("./Certificats/offline/ACI/cacert.pem"@, "ISEN_ACI.pem"@, pem_content_type()),
            ("./Certificats/offline/ACR/cacert.pem"@, "ISEN_ACR.pem"@, pem_content_type()),
        ],
        r.attachments_nested,
{
    let mut name = String::from_str(email);
    name.append(".pem");
    let mut path = String::from_str("./new_certs_client/");
    path.append(email);
    path.append(".pem");
    let mut files: Vec<Attachment> = Vec::new();
    files.push(attachment(path, name));
    files.push(
        attachment(
            String::from_str("./Certificats/offline/ACI/cacert.pem"),
            String::from_str("ISEN_ACI.pem"),
        ),
    );
    files.push(
        attachment(
            String::from_str("./Certificats/offline/ACR/cacert.pem"),
            String::from_str("ISEN_ACR.pem"),
        ),
    );
    certificate_mail_with(email, files, true)
}

/// The directory where the certificates of the users were kept in the first
/// deployment of the portal.
pub open spec fn legacy_cert_dir() -> Seq<char> {
    "/home/hugo/ISEN/Cours/Cryptographie/CryptoWebsiteCA/CryptoProject/new_certs_client/"@
}

/// The e-mail that delivers the certificate alone, from the directory of
/// the first deployment: to `email`, `<email>.pem` from `legacy_cert_dir()`.
pub fn certificate_only_mail(email: &str) -> (r: MailPlan)
    ensures
        r.from@ == sender(),
        r.to@ == email@,
        r.subject@ == certificate_subject(),
        r.body@ == vstd::utf8::encode_utf8(certificate_text()),
        attachments_view(r.attachments@) =~= seq![
            (legacy_cert_dir() + email@ + ".pem"@, email@ + ".pem"@, pem_content_type()),
        ],
        !r.attachments_nested,
{
    let mut name = String::from_str(email);
    name.append(".pem");
    let mut path = String::from_str(
        "/home/hugo/ISEN/Cours/Cryptographie/CryptoWebsiteCA/CryptoProject/new_certs_client/",
    );
    path.append(email);
    path.append(".pem");
    let mut files: Vec<Attachment> = Vec::new();
    files.push(attachment(path, name));
    certificate_mail_with(email, files, false)
}

} // verus!
