//! What the TLS connections of a client are to be like, and which certificates
//! they trust.
use crate::outside::{anchor_refusal, anchor_refused, pem_certificates, pem_certs};
use vstd::prelude::*;

verus! {

/// The text that an optional string holds.
pub open spec fn optional_text(s: Option<String>) -> Option<Seq<char>> {
    match s {
        Some(text) => Some(text@),
        None => None,
    }
}

/// What the TLS connections of a client are to be like.
#[derive(Debug)]
pub struct TlsSettings {
    /// Do not verify the server.
    pub insecure: bool,
    /// The name to ask for in place of the host.
    pub sni: Option<String>,
    /// A file with the certificates to trust.
    pub cert: Option<String>,
}

/// What a server's certificate is verified against.
#[derive(Debug)]
pub enum TrustSource {
    /// Nothing: every certificate is taken.
    Anything,
    /// The certificates of a file.
    File(String),
    /// The public certificate authorities.
    PublicRoots,
}

impl TlsSettings {
    /// What a server's certificate is verified against.
    pub fn trust_source(&self) -> (source: TrustSource)
        ensures
            match source {
                TrustSource::Anything => self.insecure,
                TrustSource::File(path) => !self.insecure && optional_text(self.cert) == Some(path@),
                TrustSource::PublicRoots => !self.insecure && self.cert is None,
            },
    {
        if self.insecure {
            return TrustSource::Anything;
        }
        match &self.cert {
            Some(path) => TrustSource::File(path.clone()),
            None => TrustSource::PublicRoots,
        }
    }

    /// The name that the server is asked for.
    pub open spec fn server_name(self, host: Seq<char>) -> Seq<char> {
        match self.sni {
            Some(name) => name@,
            None => host,
        }
    }
}

/// Why there are no certificates to trust.
#[derive(Debug)]
pub enum TrustError {
    /// The file could not be opened; holds its path.
    Open(String),
    /// The file could not be read as a PEM file.
    Pem,
    /// A certificate cannot be trusted; says why.
    Anchor(String),
}

/// Why there are no certificates to trust, as the contracts see it.
#[verifier::ext_equal]
pub enum TrustErrorView {
    Open(Seq<char>),
    Pem,
    Anchor(Seq<char>),
}

impl View for TrustError {
    type V = TrustErrorView;

    open spec fn view(&self) -> TrustErrorView {
        match self {
            TrustError::Open(path) => TrustErrorView::Open(path@),
            TrustError::Pem => TrustErrorView::Pem,
            TrustError::Anchor(reason) => TrustErrorView::Anchor(reason@),
        }
    }
}

impl TrustErrorView {
    pub open spec fn text(self) -> Seq<char> {
        match self {
            TrustErrorView::Open(path) => "Failed to open certificate file: "@ + path,
            TrustErrorView::Pem => "Failed to parse PEM certificate"@,
            TrustErrorView::Anchor(reason) => reason,
        }
    }
}

impl TrustError {
    pub fn message(&self) -> (text: String)
        ensures
            text@ == self@.text(),
    {
        let mut text: String = String::new();
        match self {
            TrustError::Open(path) => {
                text.append("Failed to open certificate file: ");
                text.append(path.as_str());
            },
            TrustError::Pem => {
                text.append("Failed to parse PEM certificate");
            },
            TrustError::Anchor(reason) => {
                text.append(reason.as_str());
            },
        }
        assert(text@ =~= self@.text());
        text
    }
}

/// What became of an attempt to read a file.
#[derive(Debug)]
pub enum FileContent {
    /// It could not be opened.
    Unopened,
    /// It was opened and could not be read.
    Unread,
    /// This stands in it.
    Bytes(Vec<u8>),
}

/// What became of an attempt to read a file, as the contracts see it.
#[verifier::ext_equal]
pub enum FileContentView {
    Unopened,
    Unread,
    Bytes(Seq<u8>),
}

impl View for FileContent {
    type V = FileContentView;

    open spec fn view(&self) -> FileContentView {
        match self {
            FileContent::Unopened => FileContentView::Unopened,
            FileContent::Unread => FileContentView::Unread,
            FileContent::Bytes(bytes) => FileContentView::Bytes(bytes@),
        }
    }
}

/// The bytes of a list of certificates.
pub open spec fn bytes_views(certs: Seq<Vec<u8>>) -> Seq<Seq<u8>> {
    certs.map_values(|cert: Vec<u8>| cert@)
}

/// The texts of a list of answers.
pub open spec fn text_views(answers: Seq<Option<String>>) -> Seq<Option<Seq<char>>> {
    answers.map_values(|answer: Option<String>| optional_text(answer))
}

/// The first reason in a list of answers.
pub open spec fn first_reason(answers: Seq<Option<Seq<char>>>) -> Option<Seq<char>>
    decreases answers.len(),
{
    if answers.len() == 0 {
        None
    } else if answers[0] is Some {
        answers[0]
    } else {
        first_reason(answers.drop_first())
    }
}

/// The certificates, or the first reason why one of them cannot be trusted.
pub open spec fn trusted(
    certs: Seq<Seq<u8>>,
    answers: Seq<Option<Seq<char>>>,
) -> Result<Seq<Seq<u8>>, TrustErrorView> {
    match first_reason(answers) {
        Some(reason) => Err(TrustErrorView::Anchor(reason)),
        None => Ok(certs),
    }
}

/// The certificates of a PEM file, where all can be trusted. A file that cannot
/// be read is no PEM file.
pub open spec fn roots_of(path: Seq<char>, file: FileContentView) -> Result<
    Seq<Seq<u8>>,
    TrustErrorView,
> {
    match file {
        FileContentView::Unopened => Err(TrustErrorView::Open(path)),
        FileContentView::Unread => Err(TrustErrorView::Pem),
        FileContentView::Bytes(pem) => match pem_certificates(pem) {
            None => Err(TrustErrorView::Pem),
            Some(certs) => trusted(certs, certs.map_values(|cert: Seq<u8>| anchor_refusal(cert))),
        },
    }
}

/// The certificates, where all of the answers say that they can be trusted. An
/// answer is the reason why a certificate cannot be.
pub fn trusted_certificates(certs: Vec<Vec<u8>>, answers: &Vec<Option<String>>) -> (r: Result<
    Vec<Vec<u8>>,
    TrustError,
>)
    ensures
        ({
            let expected = trusted(bytes_views(certs@), text_views(answers@));
            match r {
                Ok(roots) => expected == Ok::<_, TrustErrorView>(bytes_views(roots@)),
                Err(e) => expected == Err::<Seq<Seq<u8>>, _>(e@),
            }
        }),
{
    let ghost all = text_views(answers@);
    let mut i: usize = 0;
    assert(all.skip(0) =~= all);
    while i < answers.len()
        invariant
            i <= answers@.len(),
            all == text_views(answers@),
            first_reason(all) == first_reason(all.skip(i as int)),
        decreases answers@.len() - i,
    {
        let ghost here = all.skip(i as int);
        assert(here[0] == all[i as int]);
        assert(here.drop_first() =~= all.skip(i + 1));
        if let Some(reason) = &answers[i] {
            return Err(TrustError::Anchor(reason.clone()));
        }
        i = i + 1;
    }
    Ok(certs)
}

/// The certificates of the file at `path`, in their DER form. `file` is what
/// became of the attempt to read it.
pub fn root_certificates(path: &str, file: FileContent) -> (r: Result<Vec<Vec<u8>>, TrustError>)
    ensures
        match r {
            Ok(roots) => roots_of(path@, file@) == Ok::<_, TrustErrorView>(bytes_views(roots@)),
            Err(e) => roots_of(path@, file@) == Err::<Seq<Seq<u8>>, _>(e@),
        },
{
    let pem: Vec<u8> = match file {
        FileContent::Bytes(pem) => pem,
        FileContent::Unopened => {
            return Err(TrustError::Open(path.to_owned()));
        },
        FileContent::Unread => {
            return Err(TrustError::Pem);
        },
    };
    let certs: Vec<Vec<u8>> = match pem_certs(&pem) {
        Some(certs) => certs,
        None => {
            return Err(TrustError::Pem);
        },
    };
    let mut answers: Vec<Option<String>> = Vec::new();
    let mut i: usize = 0;
    while i < certs.len()
        invariant
            i <= certs@.len(),
            answers@.len() == i,
            forall|j: int|
                0 <= j < i ==> optional_text(#[trigger] answers@[j]) == anchor_refusal(
                    certs@[j]@,
                ),
        decreases certs@.len() - i,
    {
        answers.push(anchor_refused(&certs[i]));
        i = i + 1;
    }
    assert(text_views(answers@) =~= bytes_views(certs@).map_values(
        |cert: Seq<u8>| anchor_refusal(cert),
    ));
    trusted_certificates(certs, &answers)
}

/// Where every certificate can be trusted, all of those in the file are, in
/// their order.
pub proof fn law_all_roots_are_trusted(path: Seq<char>, pem: Seq<u8>, certs: Seq<Seq<u8>>)
    ensures
        (pem_certificates(pem) == Some(certs) && forall|i: int|
            0 <= i < certs.len() ==> anchor_refusal(#[trigger] certs[i]) is None) ==> roots_of(
            path,
            FileContentView::Bytes(pem),
        ) == Ok::<_, TrustErrorView>(certs),
{
    let answers = certs.map_values(|cert: Seq<u8>| anchor_refusal(cert));
    if forall|i: int| 0 <= i < certs.len() ==> anchor_refusal(#[trigger] certs[i]) is None {
        assert forall|i: int| 0 <= i < answers.len() implies (#[trigger] answers[i]) is None by {
            assert(anchor_refusal(certs[i]) is None);
        }
        lemma_no_reason(answers);
    }
}

proof fn lemma_no_reason(answers: Seq<Option<Seq<char>>>)
    requires
        forall|i: int| 0 <= i < answers.len() ==> (#[trigger] answers[i]) is None,
    ensures
        first_reason(answers) is None,
    decreases answers.len(),
{
    if answers.len() > 0 {
        let rest = answers.drop_first();
        assert forall|i: int| 0 <= i < rest.len() implies (#[trigger] rest[i]) is None by {
            assert(rest[i] == answers[i + 1]);
        }
        lemma_no_reason(rest);
    }
}

/// An optional text is the text, where there is one, and a list of answers or of
/// certificates is what its entries are.
pub proof fn law_optional_fields(
    text: String,
    answers: Seq<Option<String>>,
    certs: Seq<Vec<u8>>,
    i: int,
)
    ensures
        optional_text(Some(text)) == Some(text@),
        optional_text(None) is None,
        text_views(answers).len() == answers.len(),
        0 <= i < answers.len() ==> text_views(answers)[i] == optional_text(answers[i]),
        bytes_views(certs).len() == certs.len(),
        0 <= i < certs.len() ==> bytes_views(certs)[i] == certs[i]@,
{
}

/// The server is asked for by the configured name, and by its host where there is none.
pub proof fn law_server_name(tls: TlsSettings, host: Seq<char>)
    ensures
        tls.sni matches Some(name) ==> tls.server_name(host) == name@,
        tls.sni is None ==> tls.server_name(host) == host,
{
}

/// All of the certificates are trusted where no answer holds a reason; otherwise
/// the first reason is the error.
pub proof fn law_trust(certs: Seq<Seq<u8>>, answers: Seq<Option<Seq<char>>>, first: int)
    requires
        0 <= first <= answers.len(),
        forall|i: int| 0 <= i < first ==> (#[trigger] answers[i]) is None,
        first < answers.len() ==> answers[first] is Some,
    ensures
        first == answers.len() ==> trusted(certs, answers) == Ok::<_, TrustErrorView>(certs),
        first < answers.len() ==> trusted(certs, answers) == Err::<Seq<Seq<u8>>, _>(
            TrustErrorView::Anchor(answers[first].unwrap()),
        ),
    decreases answers.len(),
{
    if answers.len() > 0 && first > 0 {
        let rest = answers.drop_first();
        assert(answers[0] is None);
        assert forall|i: int| 0 <= i < first - 1 implies (#[trigger] rest[i]) is None by {
            assert(rest[i] == answers[i + 1]);
        }
        law_trust(certs, rest, first - 1);
    }
}

/// What becomes of a file: one that was not opened is said to be so, with its
/// path; one that was not read, or holds a section that cannot be, is no PEM file;
/// of any other the certificates are trusted by what is answered for each.
pub proof fn law_roots(path: Seq<char>, pem: Seq<u8>)
    ensures
        roots_of(path, FileContentView::Unopened) == Err::<Seq<Seq<u8>>, _>(
            TrustErrorView::Open(path),
        ),
        roots_of(path, FileContentView::Unread) == Err::<Seq<Seq<u8>>, _>(TrustErrorView::Pem),
        pem_certificates(pem) is None ==> roots_of(path, FileContentView::Bytes(pem)) == Err::<
            Seq<Seq<u8>>,
            _,
        >(TrustErrorView::Pem),
        pem_certificates(pem) matches Some(certs) ==> roots_of(path, FileContentView::Bytes(pem))
            == trusted(certs, certs.map_values(|cert: Seq<u8>| anchor_refusal(cert))),
{
}

/// What is said of each error, and what the errors and files hold.
pub proof fn law_trust_messages(error: TrustError, file: FileContent)
    ensures
        error matches TrustError::Open(path) ==> error@ == TrustErrorView::Open(path@)
            && error@.text() == "Failed to open certificate file: "@ + path@,
        error is Pem ==> error@ is Pem && error@.text() == "Failed to parse PEM certificate"@,
        error matches TrustError::Anchor(reason) ==> error@ == TrustErrorView::Anchor(reason@)
            && error@.text() == reason@,
        file is Unopened ==> file@ is Unopened,
        file is Unread ==> file@ is Unread,
        file matches FileContent::Bytes(bytes) ==> file@ == FileContentView::Bytes(bytes@),
{
}

} // verus!
