# crypto_ca

The verified core of a small certificate-authority web portal.

- `src/text.rs` — byte-level model of prefixes, substrings and lines.
- `src/otp.rs` — one-time passwords and their `email:otp` line store:
  drawing, recording, looking up, verifying, and the laws that tie them.
- `src/csr.rs` — the e-mail named by a certificate signing request
  (read with OpenSSL), its check, and the `openssl ca` command lines.
- `src/jwt.rs` — session token claims and HS256 encoding.
- `src/mail.rs` — the e-mails sent (one-time passwords, certificates).
- `src/reply.rs` — the answers of the pages and the steps of a
  certificate request.
- `app/` — the actix-web server: HTTP, templates, files, SMTP, the
  `openssl` command and the environment.
