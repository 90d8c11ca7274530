//! Certificate signing requests: the e-mail that a request names, its check
//! against the requester, and the `openssl ca` commands that issue and
//! revoke the certificate.

use openssl::nid::Nid;
use openssl::x509::X509Req;
use vstd::prelude::*;
use vstd::utf8::encode_utf8;
use crate::text::{contains, contains_bytes};

verus! {

/// The longest PEM text that OpenSSL's memory reader takes
/// (`c_int::MAX`); a longer text makes `X509Req::from_pem` panic.
pub const PEM_MAX_LEN: usize = 2147483647;

/// The name of the PEM header that marks a block as encrypted with a pass
/// phrase (`Proc-Type: 4,ENCRYPTED`, in whatever spacing).
pub open spec fn pem_encryption_header() -> Seq<u8> {
    encode_utf8("Proc-Type:"@)
}

/// A PEM text that OpenSSL reads from its bytes alone: not longer than its
/// memory reader takes, and without any `Proc-Type:` header, so without an
/// encrypted block, for which OpenSSL would ask the terminal for a pass
/// phrase.
pub open spec fn csr_readable(pem: Seq<u8>) -> bool {
    pem.len() <= PEM_MAX_LEN && !contains(pem, pem_encryption_header())
}

/// Whether `openssl::x509::X509Req::from_pem` reads the PEM text as a
/// certificate signing request.
pub uninterp spec fn csr_parses(pem: Seq<u8>) -> bool;

/// What the subject of the request read from the PEM text names as its
/// e-mail address: `None` where it names none (`emailAddress`, PKCS #9);
/// `Some(None)` where the first one cannot be read as UTF-8; otherwise that
/// address.
pub uninterp spec fn csr_email_entry(pem: Seq<u8>) -> Option<Option<Seq<char>>>;

/// The view of an e-mail entry.
pub open spec fn entry_view(e: Option<Option<String>>) -> Option<Option<Seq<char>>> {
    match e {
        None => None,
        Some(None) => Some(None),
        Some(Some(s)) => Some(Some(s@)),
    }
}

/// Reads a certificate signing request with
/// `openssl::x509::X509Req::from_pem`, then the first `emailAddress` entry of
/// its subject (`X509NameRef::entries_by_nid` with
/// `Nid::PKCS9_EMAILADDRESS`) and its text (`Asn1StringRef::as_utf8`).
/// Claimed: the parse succeeds exactly where `csr_parses` holds, and the
/// entry read is `csr_email_entry`; both are functions of the PEM bytes
/// alone, where the text is `csr_readable`: `from_pem` panics on a longer
/// text, and passes no pass-phrase callback, so that an encrypted block
/// (one with a `Proc-Type:` header) would make OpenSSL ask the terminal.
/// What the two are on given bytes is left to OpenSSL; of the error only its
/// text is kept, which is not stated.
#[verifier::external_body]
#[allow(deprecated)]
fn read_csr_email(pem: &[u8]) -> (r: Result<Option<Option<String>>, String>)
    requires
        csr_readable(pem@),
    ensures
        r is Ok == csr_parses(pem@),
        r matches Ok(e) ==> entry_view(e) == csr_email_entry(pem@),
{
    match X509Req::from_pem(pem) {
        Err(e) => Err(e.to_string()),
        Ok(req) => Ok(match req.subject_name().entries_by_nid(Nid::PKCS9_EMAILADDRESS).next() {
            None => None,
            Some(entry) => match entry.data().as_utf8() {
                Err(_) => Some(None),
                Ok(text) => Some(Some(text.to_string())),
            },
        }),
    }
}

/// Whether OpenSSL reads `pem` from its bytes alone (`csr_readable`).
pub fn csr_readable_text(pem: &[u8]) -> (r: bool)
    ensures
        r == csr_readable(pem@),
        r <==> pem@.len() <= 2147483647 && !contains(pem@, encode_utf8("Proc-Type:"@)),
{
    pem.len() <= PEM_MAX_LEN && !contains_bytes(pem, "Proc-Type:".as_bytes())
}

/// The text that begins the error of a request that cannot be read.
pub open spec fn csr_read_error() -> Seq<char> {
    "Erreur lors de la lecture du CSR : "@
}

/// The subject e-mail of a request can be told: the request cannot be read,
/// or it names an e-mail address written in UTF-8.
pub open spec fn csr_subject_defined(pem: Seq<u8>) -> bool {
    !csr_parses(pem) || csr_email_entry(pem) matches Some(Some(_))
}

/// The request names an e-mail address written in UTF-8.
pub open spec fn csr_has_email(pem: Seq<u8>) -> bool {
    csr_parses(pem) && csr_email_entry(pem) matches Some(Some(_))
}

/// The e-mail address that the request `pem` names as its subject; where
/// the text is no request, an error that begins with
/// `Erreur lors de la lecture du CSR : ` followed by OpenSSL's message. A
/// request whose subject names no e-mail address, or one that is not
/// UTF-8, is ruled out by `requires`.
pub fn get_csr_subject(pem: &[u8]) -> (r: Result<String, String>)
    requires
        csr_readable(pem@),
        csr_subject_defined(pem@),
    ensures
        !csr_parses(pem@) ==> (r matches Err(m) && exists|t: Seq<char>| m@ == csr_read_error() + t),
        csr_parses(pem@) ==> (r matches Ok(s) && csr_email_entry(pem@) == Some(Some(s@))),
{
    match read_csr_email(pem) {
        Ok(Some(Some(email))) => Ok(email),
        Ok(_) => Err(String::new()),
        Err(e) => {
            let mut m = String::from_str("Erreur lors de la lecture du CSR : ");
            m.append(e.as_str());
            assert(m@ == csr_read_error() + e@);
            Err(m)
        },
    }
}

/// Whether the request `pem` is made out to `email`: its subject e-mail is
/// `email`. Requests whose subject e-mail cannot be read are ruled out.
pub fn check_csr(email: &str, pem: &[u8]) -> (r: bool)
    requires
        csr_readable(pem@),
        csr_has_email(pem@),
    ensures
        r == (csr_email_entry(pem@) == Some(Some(email@))),
{
    match get_csr_subject(pem) {
        Ok(subject) => {
            let expected = String::from_str(email);
            subject == expected
        },
        Err(_) => false,
    }
}

/// `check_csr` where it is defined: `None` where the subject e-mail of the
/// request cannot be read (no request, no e-mail address, or not UTF-8),
/// otherwise whether the request is made out to `email`.
pub fn csr_matches_email(email: &str, pem: &[u8]) -> (r: Option<bool>)
    requires
        csr_readable(pem@),
    ensures
        r is None <==> !csr_has_email(pem@),
        r matches Some(b) ==> b == (csr_email_entry(pem@) == Some(Some(email@))),
{
    match read_csr_email(pem) {
        Ok(Some(Some(_))) => Some(check_csr(email, pem)),
        _ => None,
    }
}

/// Where an uploaded request of `email` is kept: `./tmp/<email>.csr`.
pub fn csr_upload_path(email: &str) -> (r: String)
    ensures
        r@ == "./tmp/"@ + email@ + ".csr"@,
{
    let mut r = String::from_str("./tmp/");
    r.append(email);
    r.append(".csr");
    r
}

/// The directory of the offline certificate authorities.
pub open spec fn ca_dir() -> Seq<char> {
    "Certificats/offline"@
}

/// The file that receives the certificate issued to `email`:
/// `new_certs_client/<email>.pem`.
pub open spec fn issued_cert_file(email: Seq<char>) -> Seq<char> {
    "new_certs_client/"@ + email + ".pem"@
}

/// The arguments of the `openssl` command that issues the certificate of
/// `email` from the request at `csr_path`, signed by the intermediate
/// authority with the extensions `myCA_extensions`, without prompting.
pub open spec fn create_cert_command(email: Seq<char>, csr_path: Seq<char>) -> Seq<Seq<char>> {
    seq![
        "ca"@,
        "-keyfile"@,
        ca_dir() + "/ACI/private.key"@,
        "-cert"@,
        ca_dir() + "/ACI/cacert.pem"@,
        "-config"@,
        "Certificats/offline/config/openssl.cnf"@,
        "-in"@,
        csr_path,
        "-out"@,
        issued_cert_file(email),
        "-extensions"@,
        "myCA_extensions"@,
        "-batch"@,
    ]
}

/// The arguments of the `openssl` command that revokes the certificate
/// issued to `email`, with the intermediate authority's key, certificate
/// and configuration.
pub open spec fn revoke_cert_command(email: Seq<char>) -> Seq<Seq<char>> {
    seq![
        "ca"@,
        "-keyfile"@,
        ca_dir() + "/ACI/private.key"@,
        "-cert"@,
        ca_dir() + "/ACI/cacert.pem"@,
        "-revoke"@,
        issued_cert_file(email),
        "-config"@,
        "Certificats/offline/config/openssl.cnf"@,
    ]
}

/// The views of a list of strings.
pub open spec fn strings_view(v: Seq<String>) -> Seq<Seq<char>> {
    v.map_values(|s: String| s@)
}

/// A string made of two pieces.
fn joined(a: &str, b: &str) -> (r: String)
    ensures
        r@ == a@ + b@,
{
    let mut r = String::from_str(a);
    r.append(b);
    r
}

/// The arguments of `openssl` that issue the certificate of `email` from
/// the request stored at `csr_path`.
pub fn create_cert_args(email: &str, csr_path: &str) -> (r: Vec<String>)
    ensures
        strings_view(r@) =~= create_cert_command(email@, csr_path@),
        r@.len() == 14,
        r@[8]@ == csr_path@,
        r@[9]@ == "-out"@,
        r@[10]@ == "new_certs_client/"@ + email@ + ".pem"@,
{
    let ca = "Certificats/offline";
    let mut out = joined("new_certs_client/", email);
    out.append(".pem");
    let mut r: Vec<String> = Vec::new();
    r.push(String::from_str("ca"));
    r.push(String::from_str("-keyfile"));
    r.push(joined(ca, "/ACI/private.key"));
    r.push(String::from_str("-cert"));
    r.push(joined(ca, "/ACI/cacert.pem"));
    r.push(String::from_str("-config"));
    r.push(String::from_str("Certificats/offline/config/openssl.cnf"));
    r.push(String::from_str("-in"));
    r.push(String::from_str(csr_path));
    r.push(String::from_str("-out"));
    r.push(out);
    r.push(String::from_str("-extensions"));
    r.push(String::from_str("myCA_extensions"));
    r.push(String::from_str("-batch"));
    r
}

/// The arguments of `openssl` that revoke the certificate issued to `email`.
pub fn revoke_cert_args(email: &str) -> (r: Vec<String>)
    ensures
        strings_view(r@) =~= revoke_cert_command(email@),
        r@.len() == 9,
        r@[5]@ == "-revoke"@,
        r@[6]@ == "new_certs_client/"@ + email@ + ".pem"@,
{
    let ca = "Certificats/offline";
    let mut cert = joined("new_certs_client/", email);
    cert.append(".pem");
    let mut r: Vec<String> = Vec::new();
    r.push(String::from_str("ca"));
    r.push(String::from_str("-keyfile"));
    r.push(joined(ca, "/ACI/private.key"));
    r.push(String::from_str("-cert"));
    r.push(joined(ca, "/ACI/cacert.pem"));
    r.push(String::from_str("-revoke"));
    r.push(cert);
    r.push(String::from_str("-config"));
    r.push(String::from_str("Certificats/offline/config/openssl.cnf"));
    r
}

/// Law: OpenSSL reads every PEM text that is no longer than its memory
/// reader takes (2147483647 bytes) and holds no `Proc-Type:` header, and
/// no other.
pub proof fn law_csr_readable_exactly(pem: Seq<u8>)
    ensures
        csr_readable(pem) <==> pem.len() <= 2147483647 && !contains(pem, encode_utf8("Proc-Type:"@)),
{
}

/// Law: the certificate that the issue command writes for `email` is
/// `new_certs_client/<email>.pem`, the whole e-mail, from the request at
/// `csr_path`; the revoke command revokes that same file; and the e-mail of
/// the certificate is `./new_certs_client/<email>.pem`, the same file.
pub proof fn law_issue_and_revoke_same_certificate(email: Seq<char>, csr_path: Seq<char>)
    ensures
        create_cert_command(email, csr_path).len() == 14,
        create_cert_command(email, csr_path)[7] == "-in"@,
        create_cert_command(email, csr_path)[8] == csr_path,
        create_cert_command(email, csr_path)[9] == "-out"@,
        create_cert_command(email, csr_path)[10] == "new_certs_client/"@ + email + ".pem"@,
        revoke_cert_command(email).len() == 9,
        revoke_cert_command(email)[5] == "-revoke"@,
        revoke_cert_command(email)[6] == create_cert_command(email, csr_path)[10],
        "./"@ + create_cert_command(email, csr_path)[10] == "./new_certs_client/"@ + email + ".pem"@,
{
    reveal_strlit("./");
    reveal_strlit("new_certs_client/");
    reveal_strlit("./new_certs_client/");
    assert("./"@ + ("new_certs_client/"@ + email + ".pem"@) =~= "./new_certs_client/"@ + email
        + ".pem"@);
}

} // verus!
