//! Service fingerprints from banner text.
//!
//! For each scanned port the banner and the free-form details are joined,
//! the one directly after the other, into one search buffer. Five detectors
//! run over it in a fixed order: HTTP, SSH, TLS, SMTP, FTP. Each may overwrite
//! what an earlier one wrote and adds to the evidence. A port that says
//! nothing, whose buffer is empty, is not searched. Where no detector raised
//! the confidence above zero, a table of well-known ports supplies a guess.
//! Confidence counts hundredths and never exceeds 99.
//!
//! Every detector has two parts. The first asks the `regex` crate what the
//! buffer holds; the second, named `apply_..`, takes what was found as plain
//! strings and updates the fingerprint.

use crate::models::{
    fingerprint_views, opt_text, texts, DeepScanPort, DeepScanPortView, Fingerprint,
    FingerprintView, Host, TlsCertInfo, TlsCertInfoView, MAX_CONFIDENCE,
};
use crate::pattern::{
    capture, captured, captures, group_or_empty, group_text, group_text_or_empty, is_match,
    regex_captures, regex_is_match,
};
use crate::text::{
    concat2, contains, decimal, decimal_string, is_substring, lowercased, str_eq, to_lowercase,
    trim, trimmed,
};
use vstd::prelude::*;
use vstd::string::*;

verus! {

/// A `Server:` header and its value.
pub const SERVER_HEADER: &'static str = r"(?i)Server:\s*([^\r\n]+)";

/// A header value that starts with the name of a known web server.
pub const KNOWN_SERVER: &'static str =
    r"(?i)^(nginx|apache|lighttpd|microsoft-iis|caddy|openresty|cloudflare)[/\s]*([0-9.]+)?";

/// An `X-Powered-By:` header and its value.
pub const POWERED_BY: &'static str = r"(?i)X-Powered-By:\s*([^\r\n]+)";

/// The title of an HTML page.
pub const HTML_TITLE: &'static str = r"(?i)<title>([^<]+)</title>";

/// The identification string of an SSH server.
pub const SSH_BANNER: &'static str = r"SSH-2\.0-(\S+)";

/// OpenSSH and its version.
pub const OPENSSH: &'static str = r"(?i)OpenSSH[_\s]?([0-9.p]+)?";

/// Dropbear and its version.
pub const DROPBEAR: &'static str = r"(?i)dropbear[_\s]?([0-9.]+)?";

/// A word that announces certificate details.
pub const CERT_MARKER: &'static str = r"(?i)(?:TLS|SSL|Certificate|CN[=:])";

/// The subject of a certificate.
pub const CERT_SUBJECT: &'static str = r"(?i)(?:CN[=:]\s*|Subject:\s*)([^\s,;]+)";

/// The issuer of a certificate.
pub const CERT_ISSUER: &'static str = r"(?i)Issuer[=:]\s*([^\r\n;]+)";

/// The end of validity of a certificate.
pub const CERT_EXPIRY: &'static str = r"(?i)(?:validTo|expires?|not\s*after)[=:]\s*([^\r\n;]+)";

/// The greeting of a mail server.
pub const SMTP_GREETING: &'static str = r"^220[\s-](.+)$";

/// Postfix.
pub const POSTFIX: &'static str = r"(?i)Postfix";

/// Exim and its version.
pub const EXIM: &'static str = r"(?i)Exim\s*([0-9.]+)?";

/// Microsoft's mail server.
pub const EXCHANGE: &'static str = r"(?i)Microsoft\s+ESMTP";

/// The greeting of a file server.
pub const FTP_GREETING: &'static str = r"^220[\s-].*(?i)(FTP|ProFTPD|vsftpd|Pure-FTPd|FileZilla)";

/// vsftpd and its version.
pub const VSFTPD: &'static str = r"(?i)vsftpd\s*([0-9.]+)?";

/// ProFTPD and its version.
pub const PROFTPD: &'static str = r"(?i)ProFTPD\s*([0-9.]+)?";

/// The characters of an optional string slice.
pub open spec fn opt_str(s: Option<&str>) -> Option<Seq<char>> {
    match s {
        Some(t) => Some(t@),
        None => None,
    }
}

/// The larger of two confidences.
pub open spec fn at_least(confidence: u8, floor: u8) -> u8 {
    if confidence < floor {
        floor
    } else {
        confidence
    }
}

/// `fp` with one more line of evidence.
pub open spec fn with_evidence(fp: FingerprintView, prefix: Seq<char>, value: Seq<char>) -> FingerprintView {
    FingerprintView { evidence: fp.evidence.push(prefix + value), ..fp }
}

proof fn lemma_texts_push(lines: Seq<String>, line: String)
    ensures
        texts(lines.push(line)) == texts(lines).push(line@),
{
    assert(texts(lines.push(line)) =~= texts(lines).push(line@));
}

fn add_evidence(fp: &mut Fingerprint, prefix: &str, value: &str)
    ensures
        final(fp)@ == with_evidence(old(fp)@, prefix@, value@),
{
    let line = concat2(prefix, value);
    proof {
        lemma_texts_push(fp.evidence@, line);
    }
    fp.evidence.push(line);
}

fn raise(fp: &mut Fingerprint, floor: u8)
    ensures
        final(fp)@ == (FingerprintView { confidence: at_least(old(fp)@.confidence, floor), ..old(fp)@ }),
{
    if fp.confidence < floor {
        fp.confidence = floor;
    }
}

/// What a `Server:` header with value `header` makes of `fp`. `product` is
/// the lowercase name of a known web server that the value starts with, and
/// `version` the version that follows the name.
pub open spec fn with_server(
    fp: FingerprintView,
    header: Seq<char>,
    product: Option<Seq<char>>,
    version: Seq<char>,
) -> FingerprintView {
    let noted = with_evidence(FingerprintView { protocol: "http"@, ..fp }, "Server: "@, header);
    match product {
        Some(name) => FingerprintView { product: name, version: version, confidence: 90, ..noted },
        None => FingerprintView { product: header, confidence: 70, ..noted },
    }
}

/// Records a `Server:` header.
pub fn apply_server(fp: &mut Fingerprint, header: &str, product: Option<&str>, version: &str)
    ensures
        final(fp)@ == with_server(old(fp)@, header@, opt_str(product), version@),
{
    fp.protocol = "http".to_owned();
    add_evidence(fp, "Server: ", header);
    match product {
        Some(name) => {
            fp.product = name.to_owned();
            fp.version = version.to_owned();
            fp.confidence = 90;
        },
        None => {
            fp.product = header.to_owned();
            fp.confidence = 70;
        },
    }
}

/// What an `X-Powered-By:` header with value `value` makes of `fp`: it
/// confirms an identification that is there, by five hundredths up to 95, or
/// else names the product.
pub open spec fn with_powered_by(fp: FingerprintView, value: Seq<char>) -> FingerprintView {
    let noted = with_evidence(FingerprintView { protocol: "http"@, ..fp }, "X-Powered-By: "@, value);
    if fp.confidence > 0 {
        FingerprintView {
            confidence: if fp.confidence >= 90 {
                95
            } else {
                (fp.confidence + 5) as u8
            },
            ..noted
        }
    } else {
        FingerprintView { product: value, confidence: 60, ..noted }
    }
}

/// Records an `X-Powered-By:` header.
pub fn apply_powered_by(fp: &mut Fingerprint, value: &str)
    ensures
        final(fp)@ == with_powered_by(old(fp)@, value@),
{
    add_evidence(fp, "X-Powered-By: ", value);
    fp.protocol = "http".to_owned();
    if fp.confidence > 0 {
        if fp.confidence >= 90 {
            fp.confidence = 95;
        } else {
            fp.confidence = fp.confidence + 5;
        }
    } else {
        fp.product = value.to_owned();
        fp.confidence = 60;
    }
}

/// What an HTML title makes of `fp`, `lowered` being the title in lowercase.
pub open spec fn with_title(fp: FingerprintView, title: Seq<char>, lowered: Seq<char>) -> FingerprintView {
    let noted = with_evidence(fp, "HTML title: "@, title);
    if is_substring("wordpress"@, lowered) {
        FingerprintView { product: "wordpress"@, confidence: at_least(fp.confidence, 80), ..noted }
    } else if is_substring("grafana"@, lowered) {
        FingerprintView { product: "grafana"@, confidence: at_least(fp.confidence, 85), ..noted }
    } else if is_substring("jenkins"@, lowered) {
        FingerprintView { product: "jenkins"@, confidence: at_least(fp.confidence, 85), ..noted }
    } else {
        noted
    }
}

/// Records an HTML title.
pub fn apply_title(fp: &mut Fingerprint, title: &str, lowered: &str)
    ensures
        final(fp)@ == with_title(old(fp)@, title@, lowered@),
{
    add_evidence(fp, "HTML title: ", title);
    if contains(lowered, "wordpress") {
        fp.product = "wordpress".to_owned();
        raise(fp, 80);
    } else if contains(lowered, "grafana") {
        fp.product = "grafana".to_owned();
        raise(fp, 85);
    } else if contains(lowered, "jenkins") {
        fp.product = "jenkins".to_owned();
        raise(fp, 85);
    }
}

/// Group 1 of the leftmost match of `pattern` in `text`, trimmed.
pub open spec fn trimmed_capture(pattern: Seq<char>, text: Seq<char>) -> Option<Seq<char>> {
    match captured(pattern, text, 1) {
        Some(g) => Some(trimmed(g)),
        None => None,
    }
}

fn capture_trimmed(pattern: &str, text: &str) -> (r: Option<String>)
    ensures
        opt_text(r) == trimmed_capture(pattern@, text@),
{
    match capture(pattern, text, 1) {
        Some(g) => Some(trim(g.as_str())),
        None => None,
    }
}

/// The lowercase name of the known web server that `header` starts with.
pub open spec fn known_server_name(header: Seq<char>) -> Option<Seq<char>> {
    match captured(KNOWN_SERVER@, header, 1) {
        Some(name) => Some(lowercased(name)),
        None => None,
    }
}

/// The version that follows the name of a known web server in `header`.
pub open spec fn known_server_version(header: Seq<char>) -> Seq<char> {
    match regex_captures(KNOWN_SERVER@, header) {
        Some(groups) => group_or_empty(groups, 2),
        None => Seq::empty(),
    }
}

/// What the HTTP detector makes of `fp` on the buffer `text`.
pub open spec fn http_detect(fp: FingerprintView, text: Seq<char>) -> FingerprintView {
    let a = match trimmed_capture(SERVER_HEADER@, text) {
        Some(h) => with_server(fp, h, known_server_name(h), known_server_version(h)),
        None => fp,
    };
    let b = match trimmed_capture(POWERED_BY@, text) {
        Some(v) => with_powered_by(a, v),
        None => a,
    };
    match trimmed_capture(HTML_TITLE@, text) {
        Some(t) => with_title(b, t, lowercased(t)),
        None => b,
    }
}

/// The HTTP detector: a `Server:` header, an `X-Powered-By:` header and an
/// HTML title, each on its own.
pub fn try_http_fingerprint(text: &str, fp: &mut Fingerprint)
    ensures
        final(fp)@ == http_detect(old(fp)@, text@),
{
    match capture_trimmed(SERVER_HEADER, text) {
        Some(header) => {
            let (name, version) = match captures(KNOWN_SERVER, header.as_str()) {
                Some(groups) => {
                    let name = match group_text(&groups, 1) {
                        Some(n) => Some(to_lowercase(n.as_str())),
                        None => None,
                    };
                    (name, group_text_or_empty(&groups, 2))
                },
                None => (None, String::new()),
            };
            match &name {
                Some(n) => apply_server(fp, header.as_str(), Some(n.as_str()), version.as_str()),
                None => apply_server(fp, header.as_str(), None, version.as_str()),
            }
        },
        None => {},
    }
    match capture_trimmed(POWERED_BY, text) {
        Some(value) => apply_powered_by(fp, value.as_str()),
        None => {},
    }
    match capture_trimmed(HTML_TITLE, text) {
        Some(title) => {
            let lowered = to_lowercase(title.as_str());
            apply_title(fp, title.as_str(), lowered.as_str());
        },
        None => {},
    }
}

/// What an SSH identification string makes of `fp`. `openssh` is the version
/// that follows the name OpenSSH, if the banner holds that name; `lowered` is
/// the banner in lowercase and `dropbear` the version that follows the name
/// Dropbear.
pub open spec fn with_ssh(
    fp: FingerprintView,
    banner: Seq<char>,
    openssh: Option<Seq<char>>,
    lowered: Seq<char>,
    dropbear: Seq<char>,
) -> FingerprintView {
    let noted = with_evidence(FingerprintView { protocol: "ssh"@, ..fp }, "SSH banner: "@, banner);
    match openssh {
        Some(version) => FingerprintView {
            product: "OpenSSH"@,
            version: version,
            confidence: 95,
            ..noted
        },
        None => if is_substring("dropbear"@, lowered) {
            FingerprintView { product: "Dropbear"@, version: dropbear, confidence: 90, ..noted }
        } else {
            FingerprintView { product: banner, confidence: 80, ..noted }
        },
    }
}

/// Records an SSH identification string.
pub fn apply_ssh(
    fp: &mut Fingerprint,
    banner: &str,
    openssh: Option<&str>,
    lowered: &str,
    dropbear: &str,
)
    ensures
        final(fp)@ == with_ssh(old(fp)@, banner@, opt_str(openssh), lowered@, dropbear@),
{
    fp.protocol = "ssh".to_owned();
    add_evidence(fp, "SSH banner: ", banner);
    match openssh {
        Some(version) => {
            fp.product = "OpenSSH".to_owned();
            fp.version = version.to_owned();
            fp.confidence = 95;
        },
        None => {
            if contains(lowered, "dropbear") {
                fp.product = "Dropbear".to_owned();
                fp.version = dropbear.to_owned();
                fp.confidence = 90;
            } else {
                fp.product = banner.to_owned();
                fp.confidence = 80;
            }
        },
    }
}

/// The version that follows `pattern`'s name in `text`, if the name is there:
/// group 1 of the match, or the empty text where the group took no part.
pub open spec fn version_after(pattern: Seq<char>, text: Seq<char>) -> Option<Seq<char>> {
    match regex_captures(pattern, text) {
        Some(groups) => Some(group_or_empty(groups, 1)),
        None => None,
    }
}

fn find_version(pattern: &str, text: &str) -> (r: Option<String>)
    ensures
        opt_text(r) == version_after(pattern@, text@),
{
    match captures(pattern, text) {
        Some(groups) => Some(group_text_or_empty(&groups, 1)),
        None => None,
    }
}

/// Group 1 of the leftmost match of `pattern` in `text`, or the empty text.
pub open spec fn captured_or_empty(pattern: Seq<char>, text: Seq<char>) -> Seq<char> {
    match captured(pattern, text, 1) {
        Some(g) => g,
        None => Seq::empty(),
    }
}

/// What the SSH detector makes of `fp` on the buffer `text`.
pub open spec fn ssh_detect(fp: FingerprintView, text: Seq<char>) -> FingerprintView {
    match captured(SSH_BANNER@, text, 1) {
        Some(banner) => with_ssh(
            fp,
            banner,
            version_after(OPENSSH@, banner),
            lowercased(banner),
            captured_or_empty(DROPBEAR@, banner),
        ),
        None => fp,
    }
}

fn text_of<'a>(s: &'a Option<String>) -> (r: Option<&'a str>)
    ensures
        opt_str(r) == opt_text(*s),
{
    match s {
        Some(t) => Some(t.as_str()),
        None => None,
    }
}

/// The SSH detector: the identification string of a server of protocol 2.0.
pub fn try_ssh_fingerprint(text: &str, fp: &mut Fingerprint)
    ensures
        final(fp)@ == ssh_detect(old(fp)@, text@),
{
    match capture(SSH_BANNER, text, 1) {
        Some(banner) => {
            let openssh = find_version(OPENSSH, banner.as_str());
            let lowered = to_lowercase(banner.as_str());
            let dropbear = match capture(DROPBEAR, banner.as_str(), 1) {
                Some(v) => v,
                None => String::new(),
            };
            apply_ssh(fp, banner.as_str(), text_of(&openssh), lowered.as_str(), dropbear.as_str());
        },
        None => {},
    }
}

/// What a marker of certificate details makes of `fp`: an unknown protocol
/// becomes TLS.
pub open spec fn with_tls_marker(fp: FingerprintView) -> FingerprintView {
    if fp.protocol == "unknown"@ {
        FingerprintView { protocol: "tls"@, ..fp }
    } else {
        fp
    }
}

/// Records that the buffer speaks of a certificate.
pub fn apply_tls_marker(fp: &mut Fingerprint)
    ensures
        final(fp)@ == with_tls_marker(old(fp)@),
{
    if str_eq(fp.protocol.as_str(), "unknown") {
        fp.protocol = "tls".to_owned();
    }
}

/// The text of an optional field, or the empty text.
pub open spec fn or_empty(value: Option<Seq<char>>) -> Seq<char> {
    match value {
        Some(t) => t,
        None => Seq::empty(),
    }
}

/// `fp` with a line of evidence for a field that is there.
pub open spec fn with_optional_evidence(
    fp: FingerprintView,
    prefix: Seq<char>,
    value: Option<Seq<char>>,
) -> FingerprintView {
    match value {
        Some(t) => with_evidence(fp, prefix, t),
        None => fp,
    }
}

/// What a certificate with subject `subject` makes of `fp`.
pub open spec fn with_certificate(
    fp: FingerprintView,
    subject: Seq<char>,
    issuer: Option<Seq<char>>,
    expiry: Option<Seq<char>>,
) -> FingerprintView {
    let a = with_evidence(fp, "TLS CN: "@, subject);
    let b = with_optional_evidence(a, "Issuer: "@, issuer);
    let c = with_optional_evidence(b, "Expires: "@, expiry);
    FingerprintView {
        tls_cert: Some(
            TlsCertInfoView {
                subject: subject,
                issuer: or_empty(issuer),
                valid_from: Seq::empty(),
                valid_to: or_empty(expiry),
                days_until_expiry: 0,
                key_size: None,
                signature: None,
            },
        ),
        confidence: at_least(fp.confidence, 70),
        ..c
    }
}

fn owned_or_empty(value: Option<&str>) -> (r: String)
    ensures
        r@ == or_empty(opt_str(value)),
{
    match value {
        Some(t) => t.to_owned(),
        None => String::new(),
    }
}

/// Records a certificate.
pub fn apply_certificate(
    fp: &mut Fingerprint,
    subject: &str,
    issuer: Option<&str>,
    expiry: Option<&str>,
)
    ensures
        final(fp)@ == with_certificate(old(fp)@, subject@, opt_str(issuer), opt_str(expiry)),
{
    add_evidence(fp, "TLS CN: ", subject);
    match issuer {
        Some(t) => add_evidence(fp, "Issuer: ", t),
        None => {},
    }
    match expiry {
        Some(t) => add_evidence(fp, "Expires: ", t),
        None => {},
    }
    let cert = TlsCertInfo {
        subject: subject.to_owned(),
        issuer: owned_or_empty(issuer),
        valid_from: String::new(),
        valid_to: owned_or_empty(expiry),
        days_until_expiry: 0,
        key_size: None,
        signature: None,
    };
    fp.tls_cert = Some(cert);
    raise(fp, 70);
}

/// What the TLS detector makes of `fp` on the buffer `text`.
pub open spec fn tls_detect(fp: FingerprintView, text: Seq<char>) -> FingerprintView {
    if regex_is_match(CERT_MARKER@, text) {
        let marked = with_tls_marker(fp);
        match trimmed_capture(CERT_SUBJECT@, text) {
            Some(subject) => with_certificate(
                marked,
                subject,
                trimmed_capture(CERT_ISSUER@, text),
                trimmed_capture(CERT_EXPIRY@, text),
            ),
            None => marked,
        }
    } else {
        fp
    }
}

/// The TLS detector: certificate details behind a marker word.
pub fn try_tls_fingerprint(text: &str, fp: &mut Fingerprint)
    ensures
        final(fp)@ == tls_detect(old(fp)@, text@),
{
    if !is_match(CERT_MARKER, text) {
        return ;
    }
    apply_tls_marker(fp);
    match capture_trimmed(CERT_SUBJECT, text) {
        Some(subject) => {
            let issuer = capture_trimmed(CERT_ISSUER, text);
            let expiry = capture_trimmed(CERT_EXPIRY, text);
            apply_certificate(fp, subject.as_str(), text_of(&issuer), text_of(&expiry));
        },
        None => {},
    }
}

/// What the greeting of a mail server makes of `fp`. `postfix` and `exchange`
/// say whether the greeting names those servers; `exim` is the version that
/// follows the name Exim, if the greeting holds that name.
pub open spec fn with_smtp(
    fp: FingerprintView,
    banner: Seq<char>,
    postfix: bool,
    exim: Option<Seq<char>>,
    exchange: bool,
) -> FingerprintView {
    let noted = with_evidence(FingerprintView { protocol: "smtp"@, ..fp }, "SMTP banner: "@, banner);
    if postfix {
        FingerprintView { product: "Postfix"@, confidence: 90, ..noted }
    } else {
        match exim {
            Some(version) => FingerprintView {
                product: "Exim"@,
                version: version,
                confidence: 90,
                ..noted
            },
            None => if exchange {
                FingerprintView { product: "Microsoft Exchange"@, confidence: 85, ..noted }
            } else {
                FingerprintView { product: banner, confidence: 70, ..noted }
            },
        }
    }
}

/// Records the greeting of a mail server.
pub fn apply_smtp(fp: &mut Fingerprint, banner: &str, postfix: bool, exim: Option<&str>, exchange: bool)
    ensures
        final(fp)@ == with_smtp(old(fp)@, banner@, postfix, opt_str(exim), exchange),
{
    fp.protocol = "smtp".to_owned();
    add_evidence(fp, "SMTP banner: ", banner);
    if postfix {
        fp.product = "Postfix".to_owned();
        fp.confidence = 90;
    } else {
        match exim {
            Some(version) => {
                fp.product = "Exim".to_owned();
                fp.version = version.to_owned();
                fp.confidence = 90;
            },
            None => {
                if exchange {
                    fp.product = "Microsoft Exchange".to_owned();
                    fp.confidence = 85;
                } else {
                    fp.product = banner.to_owned();
                    fp.confidence = 70;
                }
            },
        }
    }
}

/// What the SMTP detector makes of `fp` on the buffer `text`.
pub open spec fn smtp_detect(fp: FingerprintView, text: Seq<char>) -> FingerprintView {
    match trimmed_capture(SMTP_GREETING@, text) {
        Some(banner) => with_smtp(
            fp,
            banner,
            regex_is_match(POSTFIX@, banner),
            version_after(EXIM@, banner),
            regex_is_match(EXCHANGE@, banner),
        ),
        None => fp,
    }
}

/// The SMTP detector: a buffer that is one line and starts with `220`.
pub fn try_smtp_fingerprint(text: &str, fp: &mut Fingerprint)
    ensures
        final(fp)@ == smtp_detect(old(fp)@, text@),
{
    match capture_trimmed(SMTP_GREETING, text) {
        Some(banner) => {
            let postfix = is_match(POSTFIX, banner.as_str());
            let exim = find_version(EXIM, banner.as_str());
            let exchange = is_match(EXCHANGE, banner.as_str());
            apply_smtp(fp, banner.as_str(), postfix, text_of(&exim), exchange);
        },
        None => {},
    }
}

/// What the greeting of a file server makes of `fp`. `keyword` is the word by
/// which the greeting was recognised; `vsftpd` and `proftpd` are the versions
/// that follow those names in the buffer, if it holds them.
pub open spec fn with_ftp(
    fp: FingerprintView,
    keyword: Seq<char>,
    vsftpd: Option<Seq<char>>,
    proftpd: Option<Seq<char>>,
) -> FingerprintView {
    let noted = with_evidence(
        FingerprintView { protocol: "ftp"@, ..fp },
        "FTP banner match: "@,
        keyword,
    );
    match vsftpd {
        Some(version) => FingerprintView {
            product: "vsftpd"@,
            version: version,
            confidence: 90,
            ..noted
        },
        None => match proftpd {
            Some(version) => FingerprintView {
                product: "ProFTPD"@,
                version: version,
                confidence: 90,
                ..noted
            },
            None => FingerprintView { product: keyword, confidence: 70, ..noted },
        },
    }
}

/// Records the greeting of a file server.
pub fn apply_ftp(fp: &mut Fingerprint, keyword: &str, vsftpd: Option<&str>, proftpd: Option<&str>)
    ensures
        final(fp)@ == with_ftp(old(fp)@, keyword@, opt_str(vsftpd), opt_str(proftpd)),
{
    fp.protocol = "ftp".to_owned();
    add_evidence(fp, "FTP banner match: ", keyword);
    match vsftpd {
        Some(version) => {
            fp.product = "vsftpd".to_owned();
            fp.version = version.to_owned();
            fp.confidence = 90;
        },
        None => {
            match proftpd {
                Some(version) => {
                    fp.product = "ProFTPD".to_owned();
                    fp.version = version.to_owned();
                    fp.confidence = 90;
                },
                None => {
                    fp.product = keyword.to_owned();
                    fp.confidence = 70;
                },
            }
        },
    }
}

/// What the FTP detector makes of `fp` on the buffer `text`.
pub open spec fn ftp_detect(fp: FingerprintView, text: Seq<char>) -> FingerprintView {
    match captured(FTP_GREETING@, text, 1) {
        Some(keyword) => with_ftp(
            fp,
            keyword,
            version_after(VSFTPD@, text),
            version_after(PROFTPD@, text),
        ),
        None => fp,
    }
}

/// The FTP detector: a buffer that starts with `220` and names a file server
/// on its first line.
pub fn try_ftp_fingerprint(text: &str, fp: &mut Fingerprint)
    ensures
        final(fp)@ == ftp_detect(old(fp)@, text@),
{
    match capture(FTP_GREETING, text, 1) {
        Some(keyword) => {
            let vsftpd = find_version(VSFTPD, text);
            let proftpd = find_version(PROFTPD, text);
            apply_ftp(fp, keyword.as_str(), text_of(&vsftpd), text_of(&proftpd));
        },
        None => {},
    }
}

/// The protocol that usually runs on a port.
pub open spec fn port_protocol(port: u16) -> Seq<char> {
    if port == 21 {
        "ftp"@
    } else if port == 22 {
        "ssh"@
    } else if port == 23 {
        "telnet"@
    } else if port == 25 {
        "smtp"@
    } else if port == 53 {
        "dns"@
    } else if port == 80 {
        "http"@
    } else if port == 110 {
        "pop3"@
    } else if port == 143 {
        "imap"@
    } else if port == 443 {
        "https"@
    } else if port == 445 {
        "smb"@
    } else if port == 993 {
        "imaps"@
    } else if port == 995 {
        "pop3s"@
    } else if port == 1433 {
        "mssql"@
    } else if port == 1723 {
        "pptp"@
    } else if port == 3306 {
        "mysql"@
    } else if port == 3389 {
        "rdp"@
    } else if port == 5432 {
        "postgresql"@
    } else if port == 5900 {
        "vnc"@
    } else if port == 6379 {
        "redis"@
    } else if port == 8080 {
        "http-proxy"@
    } else if port == 8443 {
        "https-alt"@
    } else if port == 27017 {
        "mongodb"@
    } else {
        "unknown"@
    }
}

/// The product that usually listens on a port.
pub open spec fn port_product(port: u16) -> Seq<char> {
    if port == 21 {
        "FTP"@
    } else if port == 22 {
        "SSH"@
    } else if port == 23 {
        "Telnet"@
    } else if port == 25 {
        "SMTP"@
    } else if port == 53 {
        "DNS"@
    } else if port == 80 {
        "HTTP"@
    } else if port == 110 {
        "POP3"@
    } else if port == 143 {
        "IMAP"@
    } else if port == 443 {
        "HTTPS"@
    } else if port == 445 {
        "SMB"@
    } else if port == 993 {
        "IMAPS"@
    } else if port == 995 {
        "POP3S"@
    } else if port == 1433 {
        "Microsoft SQL Server"@
    } else if port == 1723 {
        "PPTP VPN"@
    } else if port == 3306 {
        "MySQL"@
    } else if port == 3389 {
        "RDP"@
    } else if port == 5432 {
        "PostgreSQL"@
    } else if port == 5900 {
        "VNC"@
    } else if port == 6379 {
        "Redis"@
    } else if port == 8080 {
        "HTTP Proxy"@
    } else if port == 8443 {
        "HTTPS Alt"@
    } else if port == 27017 {
        "MongoDB"@
    } else {
        "Unknown"@
    }
}

/// How much a port number alone says, in hundredths.
pub open spec fn port_confidence(port: u16) -> u8 {
    if port == 1433 || port == 3306 || port == 3389 || port == 5432 || port == 6379 || port
        == 27017 {
        30
    } else if port == 445 || port == 1723 || port == 5900 {
        25
    } else if port == 21 || port == 22 || port == 23 || port == 25 || port == 53 || port == 110
        || port == 143 || port == 993 || port == 995 {
        20
    } else if port == 80 || port == 443 {
        15
    } else {
        10
    }
}

fn protocol_on(port: u16) -> (r: &'static str)
    ensures
        r@ == port_protocol(port),
{
    match port {
        21 => "ftp",
        22 => "ssh",
        23 => "telnet",
        25 => "smtp",
        53 => "dns",
        80 => "http",
        110 => "pop3",
        143 => "imap",
        443 => "https",
        445 => "smb",
        993 => "imaps",
        995 => "pop3s",
        1433 => "mssql",
        1723 => "pptp",
        3306 => "mysql",
        3389 => "rdp",
        5432 => "postgresql",
        5900 => "vnc",
        6379 => "redis",
        8080 => "http-proxy",
        8443 => "https-alt",
        27017 => "mongodb",
        _ => "unknown",
    }
}

fn product_on(port: u16) -> (r: &'static str)
    ensures
        r@ == port_product(port),
{
    match port {
        21 => "FTP",
        22 => "SSH",
        23 => "Telnet",
        25 => "SMTP",
        53 => "DNS",
        80 => "HTTP",
        110 => "POP3",
        143 => "IMAP",
        443 => "HTTPS",
        445 => "SMB",
        993 => "IMAPS",
        995 => "POP3S",
        1433 => "Microsoft SQL Server",
        1723 => "PPTP VPN",
        3306 => "MySQL",
        3389 => "RDP",
        5432 => "PostgreSQL",
        5900 => "VNC",
        6379 => "Redis",
        8080 => "HTTP Proxy",
        8443 => "HTTPS Alt",
        27017 => "MongoDB",
        _ => "Unknown",
    }
}

fn confidence_on(port: u16) -> (r: u8)
    ensures
        r == port_confidence(port),
{
    match port {
        1433 | 3306 | 3389 | 5432 | 6379 | 27017 => 30,
        445 | 1723 | 5900 => 25,
        21 | 22 | 23 | 25 | 53 | 110 | 143 | 993 | 995 => 20,
        80 | 443 => 15,
        _ => 10,
    }
}

/// What the table of well-known ports makes of `fp`.
pub open spec fn with_port_heuristic(fp: FingerprintView, port: u16) -> FingerprintView {
    with_evidence(
        FingerprintView {
            protocol: port_protocol(port),
            product: port_product(port),
            confidence: port_confidence(port),
            ..fp
        },
        "Port heuristic: "@,
        decimal(port as nat) + "/"@ + port_protocol(port),
    )
}

/// The last resort: what usually runs on `port`.
pub fn apply_port_heuristic(port: u16, fp: &mut Fingerprint)
    ensures
        final(fp)@ == with_port_heuristic(old(fp)@, port),
{
    let protocol = protocol_on(port);
    fp.protocol = protocol.to_owned();
    fp.product = product_on(port).to_owned();
    fp.confidence = confidence_on(port);
    let mut place = decimal_string(port);
    place.append("/");
    place.append(protocol);
    add_evidence(fp, "Port heuristic: ", place.as_str());
}

/// The fingerprint that detection starts from.
pub open spec fn blank(port: u16) -> FingerprintView {
    FingerprintView {
        port: port,
        protocol: "unknown"@,
        product: Seq::empty(),
        version: Seq::empty(),
        confidence: 0,
        evidence: Seq::empty(),
        tls_cert: None,
        cpe: None,
    }
}

/// The search buffer of a port: its banner, and directly after it its
/// details.
pub open spec fn buffer_of(p: DeepScanPortView) -> Seq<char> {
    or_empty(p.raw_banner) + p.details
}

/// What the five detectors, in their order, make of `fp` on the buffer `text`.
pub open spec fn detect(fp: FingerprintView, text: Seq<char>) -> FingerprintView {
    ftp_detect(smtp_detect(tls_detect(ssh_detect(http_detect(fp, text), text), text), text), text)
}

/// `fp`, or the guess of the port table where no detector raised the
/// confidence above zero.
pub open spec fn with_fallback(fp: FingerprintView, port: u16) -> FingerprintView {
    if fp.confidence == 0 {
        with_port_heuristic(fp, port)
    } else {
        fp
    }
}

/// `fp` with its confidence cut down to the maximum.
pub open spec fn capped(fp: FingerprintView) -> FingerprintView {
    if fp.confidence > MAX_CONFIDENCE {
        FingerprintView { confidence: MAX_CONFIDENCE, ..fp }
    } else {
        fp
    }
}

/// A port says nothing: no banner or an empty one, and no details.
pub open spec fn is_silent(p: DeepScanPortView) -> bool {
    or_empty(p.raw_banner).len() == 0 && p.details.len() == 0
}

/// What detection makes of a port: the blank fingerprint where the port says
/// nothing, and else what the detectors make of the blank fingerprint on the
/// buffer of the port.
pub open spec fn detected(p: DeepScanPortView) -> FingerprintView {
    if buffer_of(p).len() == 0 {
        blank(p.port)
    } else {
        detect(blank(p.port), buffer_of(p))
    }
}

/// The fingerprint of a scanned port.
pub open spec fn fingerprint_of(p: DeepScanPortView) -> FingerprintView {
    capped(with_fallback(detected(p), p.port))
}

/// The views of a sequence of scanned ports, in order.
pub open spec fn scan_views(ports: Seq<DeepScanPort>) -> Seq<DeepScanPortView> {
    Seq::new(ports.len(), |i: int| ports[i]@)
}

/// The fingerprints of a sequence of scanned ports, in order.
pub open spec fn fingerprints_of(ports: Seq<DeepScanPortView>) -> Seq<FingerprintView> {
    Seq::new(ports.len(), |i: int| fingerprint_of(ports[i]))
}

fn fingerprint_port(p: &DeepScanPort) -> (fp: Fingerprint)
    ensures
        fp@ == fingerprint_of(p@),
{
    let mut fp = Fingerprint {
        port: p.port,
        protocol: "unknown".to_owned(),
        product: String::new(),
        version: String::new(),
        confidence: 0,
        evidence: Vec::new(),
        tls_cert: None,
        cpe: None,
    };
    assert(fp@.evidence =~= Seq::<Seq<char>>::empty());
    let mut buffer = match &p.raw_banner {
        Some(b) => b.clone(),
        None => String::new(),
    };
    buffer.append(p.details.as_str());
    if !buffer.as_str().is_empty() {
        try_http_fingerprint(buffer.as_str(), &mut fp);
        try_ssh_fingerprint(buffer.as_str(), &mut fp);
        try_tls_fingerprint(buffer.as_str(), &mut fp);
        try_smtp_fingerprint(buffer.as_str(), &mut fp);
        try_ftp_fingerprint(buffer.as_str(), &mut fp);
    }
    if fp.confidence == 0 {
        apply_port_heuristic(p.port, &mut fp);
    }
    if fp.confidence > MAX_CONFIDENCE {
        fp.confidence = MAX_CONFIDENCE;
    }
    fp
}

/// One fingerprint per scanned port, in the order of the ports. No
/// fingerprint has a confidence above the maximum, and a port that says
/// nothing gets the entry of the port table and nothing else.
pub fn analyze(host: &Host, ports: &[DeepScanPort]) -> (r: Vec<Fingerprint>)
    ensures
        r@.len() == ports@.len(),
        fingerprint_views(r@) == fingerprints_of(scan_views(ports@)),
        forall|i: int| 0 <= i < r@.len() ==> (#[trigger] r@[i]).confidence <= MAX_CONFIDENCE,
        forall|i: int|
            0 <= i < ports@.len() && is_silent(ports@[i]@) ==> {
                let fp = (#[trigger] r@[i])@;
                &&& fp == with_port_heuristic(blank(ports@[i].port), ports@[i].port)
                &&& fp.protocol == port_protocol(ports@[i].port)
                &&& fp.product == port_product(ports@[i].port)
                &&& fp.confidence == port_confidence(ports@[i].port)
                &&& 10 <= fp.confidence <= 30
                &&& fp.version.len() == 0
                &&& fp.tls_cert is None
            },
{
    let mut out: Vec<Fingerprint> = Vec::new();
    let n: usize = ports.len();
    let mut i: usize = 0;
    while i < n
        invariant
            i <= n,
            n == ports@.len(),
            out@.len() == i,
            forall|k: int| 0 <= k < i ==> (#[trigger] out@[k])@ == fingerprint_of(ports@[k]@),
            forall|k: int| 0 <= k < i ==> (#[trigger] out@[k]).confidence <= MAX_CONFIDENCE,
        decreases n - i,
    {
        let fp = fingerprint_port(&ports[i]);
        out.push(fp);
        i += 1;
    }
    assert(fingerprint_views(out@) =~= fingerprints_of(scan_views(ports@)));
    out
}

/// No fingerprint has a confidence above the maximum.
pub proof fn confidence_is_bounded(p: DeepScanPortView)
    ensures
        fingerprint_of(p).confidence <= MAX_CONFIDENCE,
{
}

/// No detector finds its signal in `text`: no `Server:` header, no
/// `X-Powered-By:` header, no HTML title, no SSH identification string, no
/// word that announces a certificate, no greeting of a mail or file server.
pub open spec fn nothing_found(text: Seq<char>) -> bool {
    &&& captured(SERVER_HEADER@, text, 1) is None
    &&& captured(POWERED_BY@, text, 1) is None
    &&& captured(HTML_TITLE@, text, 1) is None
    &&& captured(SSH_BANNER@, text, 1) is None
    &&& !regex_is_match(CERT_MARKER@, text)
    &&& captured(SMTP_GREETING@, text, 1) is None
    &&& captured(FTP_GREETING@, text, 1) is None
}

/// Where no detector finds its signal, detection changes nothing.
pub proof fn detection_without_findings(fp: FingerprintView, text: Seq<char>)
    requires
        nothing_found(text),
    ensures
        detect(fp, text) == fp,
{
}

/// Where no detector finds its signal in the buffer of a port, the port table
/// decides: the fingerprint carries the protocol and the product that usually
/// go with the port, at a confidence between 10 and 30, one line of evidence,
/// no version and no certificate.
pub proof fn fallback_without_findings(p: DeepScanPortView)
    requires
        nothing_found(buffer_of(p)),
    ensures
        fingerprint_of(p) == with_port_heuristic(blank(p.port), p.port),
        fingerprint_of(p).port == p.port,
        fingerprint_of(p).protocol == port_protocol(p.port),
        fingerprint_of(p).product == port_product(p.port),
        fingerprint_of(p).confidence == port_confidence(p.port),
        10 <= fingerprint_of(p).confidence <= 30,
        fingerprint_of(p).evidence.len() == 1,
        fingerprint_of(p).version.len() == 0,
        fingerprint_of(p).tls_cert is None,
        fingerprint_of(p).cpe is None,
{
    detection_without_findings(blank(p.port), buffer_of(p));
}

/// A port that says nothing gets the entry of the port table: the protocol and
/// the product that usually go with the port (`unknown` for a port that the
/// table does not list), at a confidence between 10 and 30, one line of
/// evidence, no version and no certificate.
pub proof fn fallback_for_silent_port(p: DeepScanPortView)
    requires
        is_silent(p),
    ensures
        fingerprint_of(p) == with_port_heuristic(blank(p.port), p.port),
        fingerprint_of(p).port == p.port,
        fingerprint_of(p).protocol == port_protocol(p.port),
        fingerprint_of(p).product == port_product(p.port),
        fingerprint_of(p).confidence == port_confidence(p.port),
        10 <= fingerprint_of(p).confidence <= 30,
        fingerprint_of(p).evidence.len() == 1,
        fingerprint_of(p).version.len() == 0,
        fingerprint_of(p).tls_cert is None,
        fingerprint_of(p).cpe is None,
{
    assert(buffer_of(p).len() == 0);
}

} // verus!
