//! What the portal's pages answer, and the steps of a certificate request.

use vstd::prelude::*;
use crate::csr::csr_upload_path;

verus! {

/// The pages of the portal.
#[derive(Debug, Clone, Copy, PartialEq, Eq, Structural)]
pub enum Page {
    /// The page where the one-time password is typed in (`otp.html`).
    Otp,
    /// The page where the certificate request is uploaded (`upload_csr.html`).
    UploadCsr,
}

impl Page {
    /// The template file of the page.
    pub fn template(&self) -> (r: String)
        ensures
            r@ == (match *self {
                Page::Otp => "otp.html"@,
                Page::UploadCsr => "upload_csr.html"@,
            }),
    {
        match self {
            Page::Otp => String::from_str("otp.html"),
            Page::UploadCsr => String::from_str("upload_csr.html"),
        }
    }
}

/// An answer of the portal: a page shown to the user `email` with a
/// message, or a plain text body (when no session goes with the request).
pub enum Reply {
    Page { page: Page, email: String, message: String },
    Plain { body: String },
}

/// `r` shows `page` to `email` with the message `message`.
pub open spec fn shows(r: Reply, page: Page, email: Seq<char>, message: Seq<char>) -> bool {
    r matches Reply::Page { page: p, email: e, message: m } && p == page && e@ == email
        && m@ == message
}

/// `r` is the plain text `body`.
pub open spec fn plain(r: Reply, body: Seq<char>) -> bool {
    r matches Reply::Plain { body: b } && b@ == body
}

/// The answer to a request that needs a session but came without one.
pub open spec fn no_session_text() -> Seq<char> {
    "404 error mail not found in"@
}

/// The purposes a one-time password is sent for.
#[derive(Debug, Clone, Copy, PartialEq, Eq, Structural)]
pub enum OtpPurpose {
    /// Logging in to upload a certificate request.
    Login,
    /// Revoking the certificate issued.
    Revocation,
}

impl OtpPurpose {
    /// The name of the store that keeps the passwords of this purpose.
    pub fn store_name(&self) -> (r: String)
        ensures
            r@ == (match *self {
                OtpPurpose::Login => "otp"@,
                OtpPurpose::Revocation => "otp_revoke"@,
            }),
    {
        match self {
            OtpPurpose::Login => String::from_str("otp"),
            OtpPurpose::Revocation => String::from_str("otp_revoke"),
        }
    }

    /// The subject of the e-mail that carries the password.
    pub fn subject(&self) -> (r: String)
        ensures
            r@ == (match *self {
                OtpPurpose::Login => "OTP"@,
                OtpPurpose::Revocation => "OTP de révocation"@,
            }),
    {
        match self {
            OtpPurpose::Login => String::from_str("OTP"),
            OtpPurpose::Revocation => String::from_str("OTP de révocation"),
        }
    }

    /// The text that precedes the password in the e-mail.
    pub fn message(&self) -> (r: String)
        ensures
            r@ == (match *self {
                OtpPurpose::Login => "Voici votre OTP :"@,
                OtpPurpose::Revocation => "Voici votre OTP de révocation pour le certificat: "@,
            }),
    {
        match self {
            OtpPurpose::Login => String::from_str("Voici votre OTP :"),
            OtpPurpose::Revocation => String::from_str(
                "Voici votre OTP de révocation pour le certificat: ",
            ),
        }
    }
}

/// A page shown to `email`.
fn show_page(target: Page, email: &str, message: &str) -> (r: Reply)
    ensures
        shows(r, target, email@, message@),
{
    Reply::Page { page: target, email: String::from_str(email), message: String::from_str(message) }
}

/// The answer to a request that came without a session.
fn no_session() -> (r: Reply)
    ensures
        plain(r, no_session_text()),
{
    Reply::Plain { body: String::from_str("404 error mail not found in") }
}

/// The answer once a login password was sent to `email`: the password page.
pub fn otp_sent_reply(email: &str) -> (r: Reply)
    ensures
        shows(r, Page::Otp, email@, ""@),
{
    show_page(Page::Otp, email, "")
}

/// The answer to a login password: without a session, the plain 404 text;
/// an accepted password leads to the upload page, a refused one back to the
/// password page with `WRONG OTP`.
pub fn otp_checked_reply(email: Option<&str>, accepted: bool) -> (r: Reply)
    ensures
        email is None ==> plain(r, no_session_text()),
        email matches Some(e) ==> (if accepted {
            shows(r, Page::UploadCsr, e@, ""@)
        } else {
            shows(r, Page::Otp, e@, "WRONG OTP"@)
        }),
{
    match email {
        None => no_session(),
        Some(e) => if accepted {
            show_page(Page::UploadCsr, e, "")
        } else {
            show_page(Page::Otp, e, "WRONG OTP")
        },
    }
}

/// The answer once the certificates were e-mailed again.
pub fn certificates_sent_reply(email: Option<&str>) -> (r: Reply)
    ensures
        email is None ==> plain(r, no_session_text()),
        email matches Some(e) ==> shows(r, Page::UploadCsr, e@, "Vos fichiers ont été envoyés !"@),
{
    match email {
        None => no_session(),
        Some(e) => show_page(Page::UploadCsr, e, "Vos fichiers ont été envoyés !"),
    }
}

/// Whether a revocation request revokes the certificate: only with a
/// session and an accepted revocation password.
pub fn revocation_allowed(has_session: bool, accepted: bool) -> (r: bool)
    ensures
        r == (has_session && accepted),
{
    has_session && accepted
}

/// The answer to a revocation password: without a session, the plain 404
/// text; otherwise the upload page, telling that the certificate was
/// revoked or that the password was wrong.
pub fn revocation_reply(email: Option<&str>, accepted: bool) -> (r: Reply)
    ensures
        email is None ==> plain(r, no_session_text()),
        email matches Some(e) ==> (if accepted {
            shows(r, Page::UploadCsr, e@, "otre certificat a été révoqué"@)
        } else {
            shows(r, Page::UploadCsr, e@, "WRONG OTP"@)
        }),
{
    match email {
        None => no_session(),
        Some(e) => if accepted {
            show_page(Page::UploadCsr, e, "otre certificat a été révoqué")
        } else {
            show_page(Page::UploadCsr, e, "WRONG OTP")
        },
    }
}

/// What happened at the last step of a certificate request.
#[derive(Debug, Clone, Copy, PartialEq, Eq, Structural)]
pub enum UploadEvent {
    /// The upload arrived, with or without a file.
    Received { has_file: bool },
    /// The uploaded request was stored.
    Stored,
    /// The stored request was checked against the user's e-mail.
    CsrChecked { matches: bool },
    /// `openssl ca` ran, and issued the certificate or not.
    CertCreated { created: bool },
    /// The revocation password and the certificates were e-mailed.
    Delivered,
}

/// What to do next for a certificate request.
pub enum UploadAction {
    /// Store the uploaded request at `path`.
    StoreCsr { path: String },
    /// Check the request stored at `path` against the user's e-mail.
    CheckCsr { path: String },
    /// Issue the certificate from the request stored at `path`.
    CreateCert { path: String },
    /// Send a revocation password and the certificates to the user.
    Deliver,
    /// Answer the request.
    Respond { reply: Reply },
}

/// The answer to an upload that came without a session.
pub fn upload_without_session_reply() -> (r: Reply)
    ensures
        plain(r, "404 error email not found in"@),
{
    Reply::Plain { body: String::from_str("404 error email not found in") }
}

/// The path where the uploaded request of `email` is kept.
pub open spec fn upload_path(email: Seq<char>) -> Seq<char> {
    "./tmp/"@ + email + ".csr"@
}

/// `r` answers `email` on the upload page with `message`.
pub open spec fn responds(r: UploadAction, email: Seq<char>, message: Seq<char>) -> bool {
    r matches UploadAction::Respond { reply } && shows(reply, Page::UploadCsr, email, message)
}

/// The step that follows `event` in the certificate request of `email`.
pub open spec fn is_upload_step(email: Seq<char>, event: UploadEvent, r: UploadAction) -> bool {
    match event {
        UploadEvent::Received { has_file } => if has_file {
            r matches UploadAction::StoreCsr { path } && path@ == upload_path(email)
        } else {
            responds(r, email, "Le input pour la transmition de la CSR est vide !"@)
        },
        UploadEvent::Stored => r matches UploadAction::CheckCsr { path } && path@ == upload_path(
            email,
        ),
        UploadEvent::CsrChecked { matches } => if matches {
            r matches UploadAction::CreateCert { path } && path@ == upload_path(email)
        } else {
            responds(r, email, "Le CSR et votre e-mail ne correspondent pas."@)
        },
        UploadEvent::CertCreated { created } => if created {
            r is Deliver
        } else {
            responds(r, email, "Veuillez révoquer votre CSR avant d'en créer un autre !"@)
        },
        UploadEvent::Delivered => responds(
            r,
            email,
            "Certificat crée ! Vos fichiers ont été envoyés !"@,
        ),
    }
}

/// The next step of the certificate request of `email`, after `event`:
/// store the uploaded request, check it, issue the certificate, deliver
/// it, and answer on the upload page, with a message that tells where it
/// stopped. A certificate is issued only from a request that was checked
/// and matched, and delivered only once issued.
pub fn upload_step(email: &str, event: UploadEvent) -> (r: UploadAction)
    ensures
        is_upload_step(email@, event, r),
        event == (UploadEvent::CsrChecked { matches: true }) ==> (r matches UploadAction::CreateCert {
            path,
        } && path@ == "./tmp/"@ + email@ + ".csr"@),
        (r matches UploadAction::Respond { reply } && reply matches Reply::Page { message, .. }
            && message@ == "Le CSR et votre e-mail ne correspondent pas."@) ==> event == (
        UploadEvent::CsrChecked { matches: false }),
        r is CreateCert ==> (event == (UploadEvent::CsrChecked { matches: true })),
        r is Deliver ==> (event == (UploadEvent::CertCreated { created: true })),
{
    proof {
        lemma_upload_messages_differ();
    }
    match event {
        UploadEvent::Received { has_file } => if has_file {
            UploadAction::StoreCsr { path: csr_upload_path(email) }
        } else {
            UploadAction::Respond {
                reply: show_page(
                    Page::UploadCsr,
                    email,
                    "Le input pour la transmition de la CSR est vide !",
                ),
            }
        },
        UploadEvent::Stored => UploadAction::CheckCsr { path: csr_upload_path(email) },
        UploadEvent::CsrChecked { matches } => if matches {
            UploadAction::CreateCert { path: csr_upload_path(email) }
        } else {
            UploadAction::Respond {
                reply: show_page(Page::UploadCsr, email, "Le CSR et votre e-mail ne correspondent pas."),
            }
        },
        UploadEvent::CertCreated { created } => if created {
            UploadAction::Deliver
        } else {
            UploadAction::Respond {
                reply: show_page(
                    Page::UploadCsr,
                    email,
                    "Veuillez révoquer votre CSR avant d'en créer un autre !",
                ),
            }
        },
        UploadEvent::Delivered => UploadAction::Respond {
            reply: show_page(Page::UploadCsr, email, "Certificat crée ! Vos fichiers ont été envoyés !"),
        },
    }
}

/// How many more steps a certificate request can take after `event`.
pub open spec fn steps_left(event: UploadEvent) -> nat {
    match event {
        UploadEvent::Received { .. } => 4,
        UploadEvent::Stored => 3,
        UploadEvent::CsrChecked { .. } => 2,
        UploadEvent::CertCreated { .. } => 1,
        UploadEvent::Delivered => 0,
    }
}

/// `next` is what the portal can report once it has done `action`.
pub open spec fn reports(action: UploadAction, next: UploadEvent) -> bool {
    match action {
        UploadAction::StoreCsr { .. } => next == UploadEvent::Stored,
        UploadAction::CheckCsr { .. } => next is CsrChecked,
        UploadAction::CreateCert { .. } => next is CertCreated,
        UploadAction::Deliver => next == UploadEvent::Delivered,
        UploadAction::Respond { .. } => false,
    }
}

/// Law: every certificate request is answered. Whatever the outcome of each
/// step, the event that follows a step leaves fewer steps, so the request
/// reaches an answer within five steps.
pub proof fn law_upload_always_answered(
    email: Seq<char>,
    event: UploadEvent,
    action: UploadAction,
    next: UploadEvent,
)
    requires
        is_upload_step(email, event, action),
        reports(action, next),
    ensures
        steps_left(next) < steps_left(event),
{
}

/// Law: what each step of a certificate request does, for every e-mail.
/// A request checked and matched is issued from `./tmp/<email>.csr`, where
/// the upload was stored and checked; the answer that the request does not
/// match comes only from a failed check; the answer that the certificate
/// was issued and sent comes only once it was delivered; a certificate is
/// delivered exactly when it was issued; and an upload without a file is
/// answered at once.
pub proof fn law_upload_steps(email: Seq<char>, event: UploadEvent, r: UploadAction)
    requires
        is_upload_step(email, event, r),
    ensures
        event == (UploadEvent::CsrChecked { matches: true }) ==> (r matches UploadAction::CreateCert {
            path,
        } && path@ == "./tmp/"@ + email + ".csr"@),
        r matches UploadAction::StoreCsr { path } ==> path@ == "./tmp/"@ + email + ".csr"@,
        r matches UploadAction::CheckCsr { path } ==> path@ == "./tmp/"@ + email + ".csr"@,
        r matches UploadAction::CreateCert { path } ==> path@ == "./tmp/"@ + email + ".csr"@,
        (r matches UploadAction::Respond { reply } && reply matches Reply::Page { message, .. }
            && message@ == "Le CSR et votre e-mail ne correspondent pas."@) ==> event == (
        UploadEvent::CsrChecked { matches: false }),
        (r matches UploadAction::Respond { reply } && reply matches Reply::Page { message, .. }
            && message@ == "Certificat crée ! Vos fichiers ont été envoyés !"@) ==> event
            == UploadEvent::Delivered,
        r is Deliver <==> event == (UploadEvent::CertCreated { created: true }),
        event == (UploadEvent::Received { has_file: false }) ==> r is Respond,
{
    lemma_upload_messages_differ();
}

/// The answers that a certificate request can end with differ from one
/// another.
proof fn lemma_upload_messages_differ()
    ensures
        "Le CSR et votre e-mail ne correspondent pas."@ != "Le input pour la transmition de la CSR est vide !"@,
        "Le CSR et votre e-mail ne correspondent pas."@ != "Veuillez révoquer votre CSR avant d'en créer un autre !"@,
        "Le CSR et votre e-mail ne correspondent pas."@ != "Certificat crée ! Vos fichiers ont été envoyés !"@,
        "Certificat crée ! Vos fichiers ont été envoyés !"@ != "Le input pour la transmition de la CSR est vide !"@,
        "Certificat crée ! Vos fichiers ont été envoyés !"@ != "Veuillez révoquer votre CSR avant d'en créer un autre !"@,
{
    reveal_strlit("Le CSR et votre e-mail ne correspondent pas.");
    reveal_strlit("Certificat crée ! Vos fichiers ont été envoyés !");
    reveal_strlit("Le input pour la transmition de la CSR est vide !");
    reveal_strlit("Veuillez révoquer votre CSR avant d'en créer un autre !");
    assert("Le CSR et votre e-mail ne correspondent pas."@[3] != "Le input pour la transmition de la CSR est vide !"@[3]);
    assert("Le CSR et votre e-mail ne correspondent pas."@[0] != "Veuillez révoquer votre CSR avant d'en créer un autre !"@[0]);
    assert("Le CSR et votre e-mail ne correspondent pas."@[0] != "Certificat crée ! Vos fichiers ont été envoyés !"@[0]);
    assert("Certificat crée ! Vos fichiers ont été envoyés !"@[0] != "Le input pour la transmition de la CSR est vide !"@[0]);
    assert("Certificat crée ! Vos fichiers ont été envoyés !"@[0] != "Veuillez révoquer votre CSR avant d'en créer un autre !"@[0]);
}

} // verus!
