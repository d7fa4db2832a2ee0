//! Issuing the certificates of a bundle.

use rcgen::{
    BasicConstraints, DnType, ExtendedKeyUsagePurpose, IsCa, KeyUsagePurpose, SanType,
};
use vstd::prelude::*;
use vstd::string::*;

use crate::devcerts;
use crate::devcerts::{
    expiry_secs, parse_sans, plan_bundle, Args, BundlePems, CertPlan, CertRole, ExtendedUsage, IssuedPem,
    KeyUsage, SanEntry, SanModel,
};

verus! {

/// `rcgen::CertificateParams`: what a certificate is to say.
#[verifier::external_type_specification]
#[verifier::external_body]
pub struct ExCertificateParams(rcgen::CertificateParams);

/// `rcgen::Certificate`: a certificate.
#[verifier::external_type_specification]
#[verifier::external_body]
pub struct ExCertificate(rcgen::Certificate);

/// `rcgen::KeyPair`: a private key and its public key.
#[verifier::external_type_specification]
#[verifier::external_body]
pub struct ExKeyPair(rcgen::KeyPair);

/// The last second at which a certificate can expire: the end of the year 9999.
pub const LATEST_EXPIRY: u64 = 253_402_300_799;

/// What a certificate says, or is to say.
#[verifier::ext_equal]
pub struct CertFacts {
    /// Whether it may sign others.
    pub authority: bool,
    pub common_name: Seq<char>,
    /// The names and addresses that it is good for.
    pub names: Seq<SanModel>,
    pub usages: Seq<KeyUsage>,
    pub extended: Seq<ExtendedUsage>,
    /// When it expires, in seconds since the Unix epoch.
    pub not_after: int,
}

/// A certificate, as a model.
#[verifier::ext_equal]
pub struct CertModel {
    pub facts: CertFacts,
    /// The public key that it is for.
    pub subject_key: Seq<u8>,
    /// The common name of the issuer.
    pub issuer: Seq<char>,
    /// The public key that its signature is checked with.
    pub signer_key: Seq<u8>,
}

/// What parameters ask for.
pub uninterp spec fn facts_asked(params: rcgen::CertificateParams) -> CertFacts;

/// What a certificate says, and who signed it.
pub uninterp spec fn cert_model(cert: rcgen::Certificate) -> CertModel;

/// Whether the private key of a pair is kept elsewhere, and all that is done
/// with it is up to someone else's code.
pub uninterp spec fn is_remote(key: rcgen::KeyPair) -> bool;

/// The public key of a pair.
pub uninterp spec fn public_key(key: rcgen::KeyPair) -> Seq<u8>;

/// A certificate in PEM.
pub uninterp spec fn cert_pem(cert: rcgen::Certificate) -> Seq<char>;

/// A private key in PEM.
pub uninterp spec fn key_pem(key: rcgen::KeyPair) -> Seq<char>;

/// The IP address that a text stands for, in the form in which addresses are
/// displayed, or the text of the error with which `parse` refuses it.
pub uninterp spec fn parsed_address(text: Seq<char>) -> Result<Seq<char>, Seq<char>>;

/// Why a text is refused as an IP address, if it is.
pub open spec fn address_fault(text: Seq<char>) -> Option<Seq<char>> {
    match parsed_address(text) {
        Ok(_) => None,
        Err(e) => Some(e),
    }
}

/// The displayed form of the address that a text stands for, which is the same
/// however the address was written.
pub open spec fn address_form(text: Seq<char>) -> Seq<char> {
    match parsed_address(text) {
        Ok(form) => form,
        Err(_) => text,
    }
}

/// A text in quotes, with what cannot be shown escaped, as `{:?}` formats it.
pub uninterp spec fn quoted_form(text: Seq<char>) -> Seq<char>;

/// `rcgen::CertificateParams::default`: no authority, no names, no usages. When
/// such a certificate would expire is left unsaid.
#[verifier::external_body]
fn blank_params() -> (r: rcgen::CertificateParams)
    ensures
        facts_asked(r) == (CertFacts {
            authority: false,
            common_name: "rcgen self signed cert"@,
            names: Seq::empty(),
            usages: Seq::empty(),
            extended: Seq::empty(),
            not_after: facts_asked(r).not_after,
        }),
{
    rcgen::CertificateParams::default()
}

/// The field `is_ca` of `rcgen::CertificateParams`: an authority without limits.
#[verifier::external_body]
fn set_authority(params: &mut rcgen::CertificateParams)
    ensures
        facts_asked(*final(params)) == (CertFacts {
            authority: true,
            ..facts_asked(*old(params))
        }),
{
    params.is_ca = IsCa::Ca(BasicConstraints::Unconstrained);
}

/// `rcgen::DistinguishedName::push` with the common name, which takes the place
/// of the one before.
#[verifier::external_body]
fn set_common_name(params: &mut rcgen::CertificateParams, name: &str)
    ensures
        facts_asked(*final(params)) == (CertFacts {
            common_name: name@,
            ..facts_asked(*old(params))
        }),
{
    params.distinguished_name.push(DnType::CommonName, name);
}

/// The field `key_usages` of `rcgen::CertificateParams`: one more usage.
#[verifier::external_body]
fn add_usage(params: &mut rcgen::CertificateParams, usage: KeyUsage)
    ensures
        facts_asked(*final(params)) == (CertFacts {
            usages: facts_asked(*old(params)).usages.push(usage),
            ..facts_asked(*old(params))
        }),
{
    params.key_usages.push(match usage {
        KeyUsage::KeyCertSign => KeyUsagePurpose::KeyCertSign,
        KeyUsage::CrlSign => KeyUsagePurpose::CrlSign,
        KeyUsage::DigitalSignature => KeyUsagePurpose::DigitalSignature,
        KeyUsage::KeyEncipherment => KeyUsagePurpose::KeyEncipherment,
    });
}

/// The field `extended_key_usages` of `rcgen::CertificateParams`: one more
/// usage.
#[verifier::external_body]
fn add_extended_usage(params: &mut rcgen::CertificateParams, usage: ExtendedUsage)
    ensures
        facts_asked(*final(params)) == (CertFacts {
            extended: facts_asked(*old(params)).extended.push(usage),
            ..facts_asked(*old(params))
        }),
{
    params.extended_key_usages.push(match usage {
        ExtendedUsage::ServerAuth => ExtendedKeyUsagePurpose::ServerAuth,
        ExtendedUsage::ClientAuth => ExtendedKeyUsagePurpose::ClientAuth,
    });
}

/// `rcgen::Ia5String::try_from` and the field `subject_alt_names` of
/// `rcgen::CertificateParams`: one more name, if it is ASCII; otherwise nothing
/// changes.
#[verifier::external_body]
fn add_dns_name(params: &mut rcgen::CertificateParams, name: &str) -> (r: bool)
    ensures
        r == devcerts::all_ascii(name@),
        r ==> facts_asked(*final(params)) == (CertFacts {
            names: facts_asked(*old(params)).names.push(SanModel::Dns(name@)),
            ..facts_asked(*old(params))
        }),
        !r ==> facts_asked(*final(params)) == facts_asked(*old(params)),
{
    let name = name.try_into().map(SanType::DnsName);
    let added = name.is_ok();
    params.subject_alt_names.extend(name);
    added
}

/// `str::parse` to the IP address of a `rcgen::SanType`, and the field
/// `subject_alt_names` of `rcgen::CertificateParams`: one more address, if the
/// text is one; otherwise nothing changes. Which texts are addresses, and which
/// address each is, is left to the name [`parsed_address`]. How the text was
/// written is not kept, only the address.
#[verifier::external_body]
fn add_address(params: &mut rcgen::CertificateParams, text: &str) -> (r: Option<String>)
    ensures
        match r {
            Some(e) => parsed_address(text@) == Err::<Seq<char>, Seq<char>>(e@) && facts_asked(
                *final(params),
            ) == facts_asked(*old(params)),
            None => parsed_address(text@) is Ok && facts_asked(*final(params)) == (CertFacts {
                names: facts_asked(*old(params)).names.push(
                    SanModel::Ip(parsed_address(text@)->Ok_0),
                ),
                ..facts_asked(*old(params))
            }),
        },
{
    match text.parse() {
        Ok(address) => params.subject_alt_names.push(SanType::IpAddress(address)),
        Err(e) => return Some(e.to_string()),
    }
    None
}

/// `time::OffsetDateTime::from_unix_timestamp`, which takes all years up to 9999,
/// and the field `not_after` of `rcgen::CertificateParams`: when the certificate
/// expires.
#[verifier::external_body]
fn set_not_after(params: &mut rcgen::CertificateParams, secs: i64)
    requires
        0 <= secs <= LATEST_EXPIRY,
    ensures
        facts_asked(*final(params)) == (CertFacts {
            not_after: secs as int,
            ..facts_asked(*old(params))
        }),
{
    let at = time::OffsetDateTime::from_unix_timestamp(secs);
    params.not_after = at.unwrap_or(params.not_after);
}

/// `rcgen::KeyPair::generate`: a new pair by chance, which is not remote. Nothing
/// else is said of it.
#[verifier::external_body]
fn generate_key() -> (r: Result<rcgen::KeyPair, String>)
    ensures
        r matches Ok(key) ==> !is_remote(key),
{
    rcgen::KeyPair::generate().map_err(|e| e.to_string())
}

/// Whether a certificate can be written that says all this: its expiry has a
/// year of four digits, and usages are only written beside something else that
/// takes an extension.
pub open spec fn signable(f: CertFacts) -> bool {
    &&& 0 <= f.not_after <= LATEST_EXPIRY
    &&& f.authority || f.extended.len() > 0 || f.names.len() > 0 || f.usages.len() == 0
}

/// `rcgen::CertificateParams::self_signed`: a certificate that says what was
/// asked, and that its own key signed. Signing draws on chance, and whether it
/// succeeds is left unsaid. A remote pair is left out: what signing with it does is
/// not for `rcgen` to say.
#[verifier::external_body]
fn sign_self(params: rcgen::CertificateParams, key: &rcgen::KeyPair) -> (r: Result<
    rcgen::Certificate,
    String,
>)
    requires
        signable(facts_asked(params)),
        !is_remote(*key),
    ensures
        r matches Ok(cert) ==> cert_model(cert) == (CertModel {
            facts: facts_asked(params),
            subject_key: public_key(*key),
            issuer: facts_asked(params).common_name,
            signer_key: public_key(*key),
        }),
{
    params.self_signed(key).map_err(|e| e.to_string())
}

/// `rcgen::CertificateParams::signed_by`: a certificate that says what was
/// asked, in the name of the issuer, and that the issuer's key signed. Signing
/// draws on chance, and whether it succeeds is left unsaid. Remote pairs are left
/// out: what signing with one does is not for `rcgen` to say.
#[verifier::external_body]
fn sign_by(
    params: rcgen::CertificateParams,
    key: &rcgen::KeyPair,
    issuer: &rcgen::Certificate,
    issuer_key: &rcgen::KeyPair,
) -> (r: Result<rcgen::Certificate, String>)
    requires
        signable(facts_asked(params)),
        !is_remote(*key),
        !is_remote(*issuer_key),
    ensures
        r matches Ok(cert) ==> cert_model(cert) == (CertModel {
            facts: facts_asked(params),
            subject_key: public_key(*key),
            issuer: cert_model(*issuer).facts.common_name,
            signer_key: public_key(*issuer_key),
        }),
{
    params.signed_by(key, issuer, issuer_key).map_err(|e| e.to_string())
}

/// `rcgen::Certificate::pem`: the certificate in PEM, which is left to the name
/// [`cert_pem`].
#[verifier::external_body]
fn pem_of_cert(cert: &rcgen::Certificate) -> (r: String)
    ensures
        r@ == cert_pem(*cert),
{
    cert.pem()
}

/// `rcgen::KeyPair::serialize_pem`: the private key in PEM, which is left to the
/// name [`key_pem`]. It panics on a remote pair.
#[verifier::external_body]
fn pem_of_key(key: &rcgen::KeyPair) -> (r: String)
    requires
        !is_remote(*key),
    ensures
        r@ == key_pem(*key),
{
    key.serialize_pem()
}

/// The `Debug` form of a text, which is left to the name [`quoted_form`].
#[verifier::external_body]
fn quoted(text: &str) -> (r: String)
    ensures
        r@ == quoted_form(text@),
{
    format!("{text:?}")
}

/// Why a list of names and addresses is refused.
#[derive(Debug)]
#[allow(inconsistent_fields)]
pub enum SanError {
    /// There is nothing in it.
    Empty,
    /// An entry does not say what it is.
    NoKind(String),
    /// An entry of another kind.
    UnknownKind { kind: String, entry: String },
    /// A name that is not ASCII.
    BadName(String),
    /// An address that is none.
    BadAddress { value: String, reason: String },
}

/// Why a list of names and addresses is refused, as a model.
#[verifier::ext_equal]
pub enum SanFault {
    Empty,
    NoKind(Seq<char>),
    UnknownKind(Seq<char>, Seq<char>),
    BadName(Seq<char>),
    BadAddress(Seq<char>, Seq<char>),
}

impl View for SanError {
    type V = SanFault;

    open spec fn view(&self) -> SanFault {
        match self {
            SanError::Empty => SanFault::Empty,
            SanError::NoKind(entry) => SanFault::NoKind(entry@),
            SanError::UnknownKind { kind, entry } => SanFault::UnknownKind(kind@, entry@),
            SanError::BadName(value) => SanFault::BadName(value@),
            SanError::BadAddress { value, reason } => SanFault::BadAddress(value@, reason@),
        }
    }
}

impl SanError {
    /// The sentence for the error.
    pub open spec fn text(&self) -> Seq<char> {
        match self@ {
            SanFault::Empty => "--server-san produced an empty SAN list"@,
            SanFault::NoKind(entry) => "SAN entry "@ + quoted_form(entry)
                + " must be `DNS:<name>` or `IP:<addr>`"@,
            SanFault::UnknownKind(kind, entry) => "unknown SAN kind "@ + quoted_form(kind) + " in "@
                + quoted_form(entry),
            SanFault::BadName(value) => "SAN DNS value "@ + quoted_form(value)
                + " rejected: Invalid IA5String: '"@ + value + "'"@,
            SanFault::BadAddress(value, reason) => "SAN IP value "@ + quoted_form(value) + ": "@
                + reason,
        }
    }

    /// A sentence that tells a person what is wrong.
    pub fn message(&self) -> (r: String)
        ensures
            r@ == self.text(),
    {
        match self {
            SanError::Empty => "--server-san produced an empty SAN list".to_owned(),
            SanError::NoKind(entry) => "SAN entry ".to_owned().concat(
                quoted(entry.as_str()).as_str(),
            ).concat(" must be `DNS:<name>` or `IP:<addr>`"),
            SanError::UnknownKind { kind, entry } => "unknown SAN kind ".to_owned().concat(
                quoted(kind.as_str()).as_str(),
            ).concat(" in ").concat(quoted(entry.as_str()).as_str()),
            SanError::BadName(value) => "SAN DNS value ".to_owned().concat(
                quoted(value.as_str()).as_str(),
            ).concat(" rejected: Invalid IA5String: '").concat(value.as_str()).concat("'"),
            SanError::BadAddress { value, reason } => "SAN IP value ".to_owned().concat(
                quoted(value.as_str()).as_str(),
            ).concat(": ").concat(reason.as_str()),
        }
    }
}

/// What is wrong with an entry, given what is wrong with it as an address.
pub open spec fn entry_fault(e: SanModel, address: Option<Seq<char>>) -> Option<SanFault> {
    match e {
        SanModel::Dns(_) => None,
        SanModel::NonAsciiDns(value) => Some(SanFault::BadName(value)),
        SanModel::Ip(value) => match address {
            None => None,
            Some(reason) => Some(SanFault::BadAddress(value, reason)),
        },
        SanModel::NoKind(entry) => Some(SanFault::NoKind(entry)),
        SanModel::UnknownKind(kind, entry) => Some(SanFault::UnknownKind(kind, entry)),
    }
}

/// The first thing that is wrong with entries, from number `i` on.
pub open spec fn first_entry_fault(
    es: Seq<SanModel>,
    addresses: Seq<Option<Seq<char>>>,
    i: int,
) -> Option<SanFault>
    decreases es.len() - i,
{
    if 0 <= i < es.len() {
        match entry_fault(es[i], addresses[i]) {
            Some(fault) => Some(fault),
            None => first_entry_fault(es, addresses, i + 1),
        }
    } else {
        None
    }
}

/// Why a list of entries is refused, if it is.
pub open spec fn list_fault(es: Seq<SanModel>, addresses: Seq<Option<Seq<char>>>) -> Option<
    SanFault,
> {
    if es.len() == 0 {
        Some(SanFault::Empty)
    } else {
        first_entry_fault(es, addresses, 0)
    }
}

/// The models of what is wrong with texts.
pub open spec fn fault_models(faults: Seq<Option<String>>) -> Seq<Option<Seq<char>>> {
    Seq::new(
        faults.len(),
        |i: int|
            match faults[i] {
                Some(e) => Some(e@),
                None => None,
            },
    )
}

/// What is wrong with each entry as an address; with one that is no address,
/// nothing is.
pub open spec fn address_faults(es: Seq<SanModel>) -> Seq<Option<Seq<char>>> {
    Seq::new(
        es.len(),
        |i: int|
            match es[i] {
                SanModel::Ip(value) => address_fault(value),
                _ => None,
            },
    )
}

/// Judges the entries of a list, given what is wrong with each as an address.
pub fn judge_sans(entries: &Vec<SanEntry>, addresses: &Vec<Option<String>>) -> (r: Option<SanError>)
    requires
        entries@.len() == addresses@.len(),
    ensures
        match r {
            Some(e) => list_fault(devcerts::san_models(entries@), fault_models(addresses@)) == Some(
                e@,
            ),
            None => list_fault(
                devcerts::san_models(entries@),
                fault_models(addresses@),
            ) is None,
        },
{
    if entries.len() == 0 {
        return Some(SanError::Empty);
    }
    let ghost es = devcerts::san_models(entries@);
    let ghost faults = fault_models(addresses@);
    let mut i: usize = 0;
    while i < entries.len()
        invariant
            i <= entries@.len(),
            entries@.len() == addresses@.len(),
            es == devcerts::san_models(entries@),
            faults == fault_models(addresses@),
            es.len() > 0,
            list_fault(es, faults) == first_entry_fault(es, faults, i as int),
        decreases entries@.len() - i,
    {
        assert(es[i as int] == entries@[i as int]@);
        match (&entries[i], &addresses[i]) {
            (SanEntry::Dns(_), _) => {},
            (SanEntry::NonAsciiDns(value), _) => {
                return Some(SanError::BadName(value.clone()));
            },
            (SanEntry::Ip(_), None) => {},
            (SanEntry::Ip(value), Some(reason)) => {
                return Some(SanError::BadAddress { value: value.clone(), reason: reason.clone() });
            },
            (SanEntry::NoKind(entry), _) => {
                return Some(SanError::NoKind(entry.clone()));
            },
            (SanEntry::UnknownKind { kind, entry }, _) => {
                return Some(SanError::UnknownKind { kind: kind.clone(), entry: entry.clone() });
            },
        }
        i = i + 1;
    }
    None
}

/// The names and addresses in a list, if a certificate can have them all.
pub fn server_names(list: &str) -> (r: Result<Vec<SanEntry>, SanError>)
    ensures
        ({
            let es = devcerts::sans_from(list@, 0);
            match r {
                Ok(names) => list_fault(es, address_faults(es)) is None && devcerts::san_models(
                    names@,
                ) == es,
                Err(e) => list_fault(es, address_faults(es)) == Some(e@),
            }
        }),
{
    let entries = parse_sans(list);
    let ghost es = devcerts::san_models(entries@);
    let mut tried = blank_params();
    let mut addresses: Vec<Option<String>> = Vec::new();
    let mut i: usize = 0;
    while i < entries.len()
        invariant
            i <= entries@.len(),
            es == devcerts::san_models(entries@),
            fault_models(addresses@) == address_faults(es).take(i as int),
            addresses@.len() == i,
        decreases entries@.len() - i,
    {
        assert(es[i as int] == entries@[i as int]@);
        let ghost before = addresses@;
        let fault = match &entries[i] {
            SanEntry::Ip(value) => add_address(&mut tried, value.as_str()),
            _ => None,
        };
        addresses.push(fault);
        proof {
            assert forall|k: int| 0 <= k < i implies fault_models(addresses@)[k]
                == address_faults(es)[k] by {
                assert(fault_models(before)[k] == address_faults(es).take(i as int)[k]);
            }
        }
        i = i + 1;
        assert(fault_models(addresses@) =~= address_faults(es).take(i as int));
    }
    assert(fault_models(addresses@) =~= address_faults(es));
    match judge_sans(&entries, &addresses) {
        Some(e) => Err(e),
        None => Ok(entries),
    }
}

/// A certificate with its key, which is at hand.
pub struct Issued {
    cert: rcgen::Certificate,
    key: rcgen::KeyPair,
}

impl Issued {
    /// The key is at hand.
    #[verifier::type_invariant]
    spec fn has_key(self) -> bool {
        !is_remote(self.key)
    }

    /// The certificate.
    pub closed spec fn cert(self) -> rcgen::Certificate {
        self.cert
    }

    /// The key of the certificate.
    pub closed spec fn key(self) -> rcgen::KeyPair {
        self.key
    }

    /// The certificate.
    pub fn certificate(&self) -> (r: &rcgen::Certificate)
        ensures
            *r == self.cert(),
    {
        &self.cert
    }

    /// The key of the certificate. It is not remote.
    pub fn key_pair(&self) -> (r: &rcgen::KeyPair)
        ensures
            *r == self.key(),
            !is_remote(*r),
    {
        proof {
            use_type_invariant(self);
        }
        &self.key
    }
}

/// The certificates of a bundle.
pub struct IssuedBundle {
    pub server_ca: Issued,
    pub server_leaf: Issued,
    pub client_ca: Issued,
    pub client_leaf: Issued,
}

/// What a certificate says of the entries of a list: names as they were written,
/// and addresses in the form in which they are displayed.
pub open spec fn certified(es: Seq<SanModel>) -> Seq<SanModel> {
    Seq::new(
        es.len(),
        |i: int|
            match es[i] {
                SanModel::Ip(text) => SanModel::Ip(address_form(text)),
                e => e,
            },
    )
}

/// What a planned certificate is to say.
pub open spec fn planned(plan: CertPlan, names: Seq<SanModel>, not_after: int) -> CertFacts {
    CertFacts {
        authority: plan.role is Authority,
        common_name: plan.common_name@,
        names: if plan.server_names {
            certified(names)
        } else {
            seq![]
        },
        usages: devcerts::usages_of(plan.role),
        extended: devcerts::extended_of(plan.role),
        not_after,
    }
}

/// A certificate that says what was planned, and that the holder of a key signed
/// under this name.
pub open spec fn issued_as(
    issued: Issued,
    facts: CertFacts,
    issuer: Seq<char>,
    signer: rcgen::KeyPair,
) -> bool {
    cert_model(issued.cert()) == (CertModel {
        facts,
        subject_key: public_key(issued.key()),
        issuer,
        signer_key: public_key(signer),
    })
}

/// Why a certificate cannot have an entry among its names, if it cannot.
pub open spec fn name_fault(e: SanModel) -> Option<Seq<char>> {
    match e {
        SanModel::Dns(name) => if devcerts::all_ascii(name) {
            None
        } else {
            Some("a name is not ASCII"@)
        },
        SanModel::Ip(text) => address_fault(text),
        _ => Some("an entry is neither a name nor an address"@),
    }
}

/// Why a certificate cannot have all entries from number `i` on: the first fault
/// there is.
pub open spec fn first_name_fault(es: Seq<SanModel>, i: int) -> Option<Seq<char>>
    decreases es.len() - i,
{
    if 0 <= i < es.len() {
        match name_fault(es[i]) {
            Some(fault) => Some(fault),
            None => first_name_fault(es, i + 1),
        }
    } else {
        None
    }
}

/// Why a planned certificate cannot be issued, if it cannot, whatever chance
/// brings.
pub open spec fn plan_fault(plan: CertPlan, es: Seq<SanModel>, not_after: int) -> Option<
    Seq<char>,
> {
    if !(0 <= not_after <= LATEST_EXPIRY) {
        Some("the expiry is out of range"@)
    } else if plan.server_names {
        first_name_fault(es, 0)
    } else {
        None
    }
}

/// Names in a list are ASCII.
proof fn lemma_listed_names_are_ascii(s: Seq<char>, i: int, k: int)
    requires
        0 <= k < devcerts::sans_from(s, i).len(),
    ensures
        devcerts::sans_from(s, i)[k] matches SanModel::Dns(name) ==> devcerts::all_ascii(name),
    decreases s.len() - i,
{
    let comma = devcerts::find(s, ',', i);
    let entry = devcerts::trimmed(s.subrange(i, comma));
    let rest = if comma < s.len() && comma >= i {
        devcerts::sans_from(s, comma + 1)
    } else {
        seq![]
    };
    if entry.len() == 0 {
        lemma_listed_names_are_ascii(s, comma + 1, k);
    } else if k > 0 {
        assert(devcerts::sans_from(s, i)[k] == rest[k - 1]);
        lemma_listed_names_are_ascii(s, comma + 1, k - 1);
    }
}

/// A certificate can have all names and addresses of a list that is not refused.
pub proof fn law_judged_names_can_be_issued(list: Seq<char>)
    requires
        ({
            let es = devcerts::sans_from(list, 0);
            list_fault(es, address_faults(es)) is None
        }),
    ensures
        first_name_fault(devcerts::sans_from(list, 0), 0) is None,
{
    lemma_names_from(list, 0);
}

proof fn lemma_names_from(list: Seq<char>, i: int)
    requires
        ({
            let es = devcerts::sans_from(list, 0);
            0 <= i <= es.len() && first_entry_fault(es, address_faults(es), i) is None
        }),
    ensures
        first_name_fault(devcerts::sans_from(list, 0), i) is None,
    decreases devcerts::sans_from(list, 0).len() - i,
{
    let es = devcerts::sans_from(list, 0);
    if i < es.len() {
        lemma_listed_names_are_ascii(list, 0, i);
        assert(entry_fault(es[i], address_faults(es)[i]) is None);
        lemma_names_from(list, i + 1);
    }
}

/// The parameters of a planned certificate.
fn parameters(plan: &CertPlan, names: &Vec<SanEntry>, not_after: i64) -> (r: Result<
    rcgen::CertificateParams,
    String,
>)
    ensures
        ({
            let es = devcerts::san_models(names@);
            match r {
                Ok(params) => plan_fault(*plan, es, not_after as int) is None && facts_asked(params)
                    == planned(*plan, es, not_after as int),
                Err(e) => plan_fault(*plan, es, not_after as int) == Some(e@),
            }
        }),
{
    if not_after < 0 || not_after as u64 > LATEST_EXPIRY {
        return Err("the expiry is out of range".to_owned());
    }
    let mut params = blank_params();
    if let CertRole::Authority = plan.role {
        set_authority(&mut params);
    }
    set_common_name(&mut params, plan.common_name.as_str());
    set_not_after(&mut params, not_after);
    let usages = plan.role.key_usages();
    let ghost before = facts_asked(params);
    let mut i: usize = 0;
    assert(before.usages =~= usages@.take(0));
    while i < usages.len()
        invariant
            i <= usages@.len(),
            facts_asked(params) == (CertFacts { usages: usages@.take(i as int), ..before }),
        decreases usages@.len() - i,
    {
        add_usage(&mut params, usages[i]);
        assert(usages@.take(i as int).push(usages@[i as int]) =~= usages@.take(i + 1));
        i = i + 1;
    }
    assert(usages@.take(i as int) =~= usages@);
    if let Some(usage) = plan.role.extended_usage() {
        add_extended_usage(&mut params, usage);
    }
    assert(facts_asked(params).extended =~= devcerts::extended_of(plan.role));
    if plan.server_names {
        let ghost before = facts_asked(params);
        let ghost es = devcerts::san_models(names@);
        let mut k: usize = 0;
        assert(before.names =~= certified(es).take(0));
        while k < names.len()
            invariant
                k <= names@.len(),
                es == devcerts::san_models(names@),
                facts_asked(params) == (CertFacts {
                    names: certified(es).take(k as int),
                    ..before
                }),
                plan.server_names,
                0 <= not_after <= LATEST_EXPIRY,
                plan_fault(*plan, es, not_after as int) == first_name_fault(es, k as int),
            decreases names@.len() - k,
        {
            assert(es[k as int] == names@[k as int]@);
            match &names[k] {
                SanEntry::Dns(name) => {
                    if !add_dns_name(&mut params, name.as_str()) {
                        return Err("a name is not ASCII".to_owned());
                    }
                },
                SanEntry::Ip(text) => {
                    if let Some(e) = add_address(&mut params, text.as_str()) {
                        return Err(e);
                    }
                },
                _ => {
                    return Err("an entry is neither a name nor an address".to_owned());
                },
            }
            assert(certified(es).take(k as int).push(certified(es)[k as int]) =~= certified(es).take(
                k + 1,
            ));
            k = k + 1;
        }
        assert(certified(es).take(k as int) =~= certified(es));
    }
    Ok(params)
}

/// A certificate with its key, once it was signed, or why it could not be.
pub fn issued_from(key: rcgen::KeyPair, signed: Result<rcgen::Certificate, String>) -> (r: Result<
    Issued,
    String,
>)
    requires
        !is_remote(key),
    ensures
        match signed {
            Ok(cert) => r matches Ok(issued) && issued.cert() == cert && issued.key() == key,
            Err(e) => r == Err::<Issued, String>(e),
        },
{
    match signed {
        Ok(cert) => Ok(Issued { cert, key }),
        Err(e) => Err(e),
    }
}

/// A certificate that says this, for its own key or signed by an issuer.
pub open spec fn issued_by(issued: Issued, facts: CertFacts, issuer: Option<&Issued>) -> bool {
    match issuer {
        None => issued_as(issued, facts, facts.common_name, issued.key()),
        Some(ca) => issued_as(issued, facts, cert_model(ca.cert()).facts.common_name, ca.key()),
    }
}

/// Signs a certificate for a key that was generated, by an issuer or, without
/// one, by the key itself. Where there is no key, the reason is handed on.
pub fn certify(
    params: rcgen::CertificateParams,
    generated: Result<rcgen::KeyPair, String>,
    issuer: Option<&Issued>,
) -> (r: Result<Issued, String>)
    requires
        signable(facts_asked(params)),
        generated matches Ok(key) ==> !is_remote(key),
    ensures
        match generated {
            Ok(key) => r matches Ok(issued) ==> issued.key() == key && issued_by(
                issued,
                facts_asked(params),
                issuer,
            ),
            Err(e) => r == Err::<Issued, String>(e),
        },
{
    let key = match generated {
        Ok(key) => key,
        Err(e) => {
            return Err(e);
        },
    };
    let signed = match issuer {
        None => sign_self(params, &key),
        Some(ca) => sign_by(params, &key, ca.certificate(), ca.key_pair()),
    };
    issued_from(key, signed)
}

/// Issues a planned certificate, signed by an issuer or, without one, by itself.
///
/// What cannot be issued is refused. Otherwise the key and the signature are a
/// matter of chance, and so is whether they can be had.
pub fn issue(
    plan: &CertPlan,
    names: &Vec<SanEntry>,
    not_after: i64,
    issuer: Option<&Issued>,
) -> (r: Result<Issued, String>)
    ensures
        ({
            let es = devcerts::san_models(names@);
            match plan_fault(*plan, es, not_after as int) {
                Some(fault) => r is Err && r->Err_0@ == fault,
                None => r matches Ok(issued) ==> issued_by(
                    issued,
                    planned(*plan, es, not_after as int),
                    issuer,
                ),
            }
        }),
{
    match parameters(plan, names, not_after) {
        Ok(params) => certify(params, generate_key(), issuer),
        Err(e) => Err(e),
    }
}

/// What an authority's certificate is to say.
pub open spec fn authority_facts(name: Seq<char>, not_after: int) -> CertFacts {
    CertFacts {
        authority: true,
        common_name: name,
        names: seq![],
        usages: devcerts::usages_of(CertRole::Authority),
        extended: seq![],
        not_after,
    }
}

/// What the certificate of a server or a client is to say.
pub open spec fn leaf_facts(
    role: CertRole,
    name: Seq<char>,
    names: Seq<SanModel>,
    not_after: int,
) -> CertFacts {
    CertFacts {
        authority: false,
        common_name: name,
        names,
        usages: devcerts::usages_of(role),
        extended: devcerts::extended_of(role),
        not_after,
    }
}

/// An authority that signed itself, and a leaf that it signed.
pub open spec fn chained(
    ca: Issued,
    leaf: Issued,
    ca_name: Seq<char>,
    facts: CertFacts,
    not_after: int,
) -> bool {
    &&& issued_as(ca, authority_facts(ca_name, not_after), ca_name, ca.key())
    &&& issued_as(leaf, facts, ca_name, ca.key())
}

/// The bundle that a command line asks for: each side has an authority of its
/// own, which signed itself and the leaf of its side.
pub open spec fn bundle_as_asked(
    bundle: IssuedBundle,
    args: Args,
    names: Seq<SanModel>,
    not_after: int,
) -> bool {
    &&& chained(
        bundle.server_ca,
        bundle.server_leaf,
        "otk-dev-server-ca"@,
        leaf_facts(CertRole::Server, args.server_cn@, certified(names), not_after),
        not_after,
    )
    &&& chained(
        bundle.client_ca,
        bundle.client_leaf,
        "otk-dev-client-ca"@,
        leaf_facts(CertRole::Client, args.client_cn@, seq![], not_after),
        not_after,
    )
}

/// Issues an authority, and a leaf that it signs. Both are looked at before
/// anything is issued.
fn issue_chain(ca: &CertPlan, leaf: &CertPlan, names: &Vec<SanEntry>, not_after: i64) -> (r: Result<
    (Issued, Issued),
    String,
>)
    requires
        ca.role == CertRole::Authority,
        !ca.server_names,
    ensures
        ({
            let es = devcerts::san_models(names@);
            match plan_fault(*leaf, es, not_after as int) {
                Some(fault) => r is Err && r->Err_0@ == fault,
                None => r matches Ok((issued_ca, issued_leaf)) ==> chained(
                    issued_ca,
                    issued_leaf,
                    ca.common_name@,
                    planned(*leaf, es, not_after as int),
                    not_after as int,
                ),
            }
        }),
{
    let leaf_params = match parameters(leaf, names, not_after) {
        Ok(params) => params,
        Err(e) => {
            return Err(e);
        },
    };
    let issued_ca = match issue(ca, names, not_after, None) {
        Ok(issued) => issued,
        Err(e) => {
            return Err(e);
        },
    };
    match certify(leaf_params, generate_key(), Some(&issued_ca)) {
        Ok(issued_leaf) => Ok((issued_ca, issued_leaf)),
        Err(e) => Err(e),
    }
}

/// A bundle of what was issued for the server and, if it could be, for the
/// client; each time the authority and the leaf.
pub fn bundle_from(server: (Issued, Issued), client: Result<(Issued, Issued), String>) -> (r: Result<
    IssuedBundle,
    String,
>)
    ensures
        match client {
            Ok(pair) => r == Ok::<IssuedBundle, String>(
                IssuedBundle {
                    server_ca: server.0,
                    server_leaf: server.1,
                    client_ca: pair.0,
                    client_leaf: pair.1,
                },
            ),
            Err(e) => r == Err::<IssuedBundle, String>(e),
        },
{
    let (server_ca, server_leaf) = server;
    match client {
        Ok((client_ca, client_leaf)) => Ok(
            IssuedBundle { server_ca, server_leaf, client_ca, client_leaf },
        ),
        Err(e) => Err(e),
    }
}

/// Issues the certificates that a command line asks for.
///
/// Names that no certificate can have are refused. Otherwise the keys and the
/// signatures are a matter of chance, and so is whether they can be had.
pub fn issue_bundle(args: &Args, names: &Vec<SanEntry>, now_secs: u64) -> (r: Result<
    IssuedBundle,
    String,
>)
    requires
        now_secs + args.days * 86_400 <= LATEST_EXPIRY,
    ensures
        ({
            let es = devcerts::san_models(names@);
            match first_name_fault(es, 0) {
                Some(fault) => r is Err && r->Err_0@ == fault,
                None => r matches Ok(bundle) ==> bundle_as_asked(
                    bundle,
                    *args,
                    es,
                    now_secs + args.days * 86_400,
                ),
            }
        }),
{
    let not_after: i64 = expiry_secs(now_secs, args.days) as i64;
    let plan = plan_bundle(args);
    let server = match issue_chain(&plan.server_ca, &plan.server_leaf, names, not_after) {
        Ok(pair) => pair,
        Err(e) => {
            return Err(e);
        },
    };
    let client = issue_chain(&plan.client_ca, &plan.client_leaf, names, not_after);
    bundle_from(server, client)
}

/// The PEM forms of a certificate and its key.
pub open spec fn pem_forms(pem: IssuedPem, issued: Issued) -> bool {
    pem.cert@ == cert_pem(issued.cert()) && pem.key@ == key_pem(issued.key())
}

impl Issued {
    /// The certificate and its key in PEM.
    pub fn pem(&self) -> (r: IssuedPem)
        ensures
            pem_forms(r, *self),
    {
        IssuedPem { cert: pem_of_cert(self.certificate()), key: pem_of_key(self.key_pair()) }
    }
}

/// All certificates of a bundle and their keys in PEM.
pub fn bundle_pems(bundle: &IssuedBundle) -> (r: BundlePems)
    ensures
        pem_forms(r.server_ca, bundle.server_ca),
        pem_forms(r.server_leaf, bundle.server_leaf),
        pem_forms(r.client_ca, bundle.client_ca),
        pem_forms(r.client_leaf, bundle.client_leaf),
{
    BundlePems {
        server_ca: bundle.server_ca.pem(),
        server_leaf: bundle.server_leaf.pem(),
        client_ca: bundle.client_ca.pem(),
        client_leaf: bundle.client_leaf.pem(),
    }
}

} // verus!
