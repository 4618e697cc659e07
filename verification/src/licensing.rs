//! Licenses: where a license was saved, reading a license text, and
//! checking its signature and expiry.
use vstd::prelude::*;
use vstd::string::StringSliceAdditionalSpecFns;
use crate::data_structures::{Timestamp, now, total_nanos};
use crate::err::Reason;
use crate::text::{
    chars_of, decimal_digits, lemma_lines_cons, lemma_trim_after_space, lemma_trim_none,
    lemma_trimmed_ends, lines, push_char, push_decimal, spec_is_whitespace, spec_lines,
    spec_strip_prefix, spec_trim, strip_cr, strip_prefix, string_of, trim,
};

verus! {

/// Where a license was saved.
#[derive(Debug, Clone, Copy, PartialEq, Eq, Structural)]
pub enum LicenseSaveResult {
    MachineWide,
    UserOnly,
}

/// Saving a license: machine-wide if that write succeeded, otherwise to the
/// user's configuration, whose write is tried only then (`user_write`).
pub fn save_license(machine_wide_written: bool, user_write: Option<Result<(), Reason>>) -> (r:
    Result<LicenseSaveResult, Reason>)
    requires
        !machine_wide_written ==> user_write is Some,
    ensures
        machine_wide_written ==> r == Ok::<LicenseSaveResult, Reason>(
            LicenseSaveResult::MachineWide,
        ),
        !machine_wide_written ==> match user_write {
            Some(Ok(())) => r == Ok::<LicenseSaveResult, Reason>(LicenseSaveResult::UserOnly),
            Some(Err(e)) => r == Err::<LicenseSaveResult, Reason>(e),
            None => false,
        },
{
    if machine_wide_written {
        return Ok(LicenseSaveResult::MachineWide);
    }
    match user_write {
        Some(Ok(())) => Ok(LicenseSaveResult::UserOnly),
        Some(Err(e)) => Err(e),
        None => Ok(LicenseSaveResult::UserOnly),
    }
}

/// The state of the product's registration.
#[derive(Debug, Clone, Copy, PartialEq, Eq, Structural)]
pub enum Registration {
    Unregistered,
    Expired,
    Registered,
}

/// A calendar date: year, month (1 to 12) and day of the month.
#[derive(Debug, Clone, Copy, PartialEq, Eq, Structural)]
pub struct CivilDate {
    pub year: i32,
    pub month: u32,
    pub day: u32,
}

/// The date that `chrono::NaiveDate::parse_from_str(text, "%Y-%m-%d")`
/// reads from `text` (year, month, day), if it accepts it.
pub uninterp spec fn iso_date(text: Seq<char>) -> Option<(i32, u32, u32)>;

/// The expiry text names a date in the `YYYY-MM-DD` form.
pub open spec fn iso_date_accepted(text: Seq<char>) -> bool {
    iso_date(text) is Some
}

/// `chrono::NaiveDate::parse_from_str(text, "%Y-%m-%d")`, taken by its year,
/// month and day.  The contract names the date and states what `chrono`
/// documents of a date: its month lies in 1 to 12, its day in 1 to 31.
#[verifier::external_body]
fn parse_iso_date(text: &str) -> (r: Option<CivilDate>)
    ensures
        match iso_date(text@) {
            Some(d) => r == Some(CivilDate { year: d.0, month: d.1, day: d.2 }),
            None => r is None,
        },
        r matches Some(d) ==> 1 <= d.month <= 12 && 1 <= d.day <= 31,
{
    match chrono::NaiveDate::parse_from_str(text, "%Y-%m-%d") {
        Ok(d) => Some(CivilDate {
            year: chrono::Datelike::year(&d),
            month: chrono::Datelike::month(&d),
            day: chrono::Datelike::day(&d),
        }),
        Err(_) => None,
    }
}

/// Days from 1970-01-01 to the date `y`-`m`-`d` of the proleptic Gregorian
/// calendar (negative before it).
pub open spec fn days_from_civil(y: int, m: int, d: int) -> int {
    let y2 = if m <= 2 {
        y - 1
    } else {
        y
    };
    let era = y2 / 400;
    let yoe = y2 - era * 400;
    let mp = if m > 2 {
        m - 3
    } else {
        m + 9
    };
    let doy = (153 * mp + 2) / 5 + d - 1;
    let doe = yoe * 365 + yoe / 4 - yoe / 100 + doy;
    era * 146097 + doe - 719468
}

/// Seconds from the Unix epoch to time `h`:`m`:`s` of `date`, read as UTC.
pub open spec fn utc_seconds(date: CivilDate, h: int, m: int, s: int) -> int {
    days_from_civil(date.year as int, date.month as int, date.day as int) * 86400 + h * 3600 + m
        * 60 + s
}

/// An instant that a clock in some time zone shows as `h`:`m`:`s` on
/// `date`: whole seconds, less than a day from that time read as UTC (every
/// time zone is less than a day from UTC).
pub open spec fn local_reading_of(t: Timestamp, date: CivilDate, h: int, m: int, s: int) -> bool {
    &&& t.nanos == 0
    &&& utc_seconds(date, h, m, s) - 86400 < t.secs < utc_seconds(date, h, m, s) + 86400
}

/// `chrono::Local.from_local_datetime(..).single()` of time
/// `hour`:`minute`:`second` on `date`, as a timestamp: the instant at which
/// the machine's time zone shows that time, when there is exactly one.
/// Which instant it is depends on the time zone; the contract states what
/// holds in every one: it is a whole second less than a day away from the
/// same time read as UTC.
#[verifier::external_body]
fn local_instant(date: &CivilDate, hour: u32, minute: u32, second: u32) -> (r: Option<Timestamp>)
    ensures
        r matches Some(t) ==> local_reading_of(t, *date, hour as int, minute as int, second as int),
{
    let day = match chrono::NaiveDate::from_ymd_opt(date.year, date.month, date.day) {
        Some(d) => d,
        None => return None,
    };
    let naive = match day.and_hms_opt(hour, minute, second) {
        Some(n) => n,
        None => return None,
    };
    match <chrono::Local as chrono::TimeZone>::from_local_datetime(&chrono::Local, &naive).single() {
        Some(t) => Some(Timestamp { secs: t.timestamp(), nanos: t.timestamp_subsec_nanos() }),
        None => None,
    }
}

/// What `base64`'s standard engine decodes `text` to, if anything.
pub uninterp spec fn base64_standard_decode(text: Seq<char>) -> Option<Seq<u8>>;

/// `base64::engine::general_purpose::STANDARD.decode(text)`.  The contract
/// names the result.
#[verifier::external_body]
fn decode_base64(text: &str) -> (r: Option<Vec<u8>>)
    ensures
        match base64_standard_decode(text@) {
            Some(bytes) => r matches Some(v) && v@ == bytes,
            None => r is None,
        },
{
    base64::Engine::decode(&base64::engine::general_purpose::STANDARD, text).ok()
}

/// Whether `ed25519_dalek::VerifyingKey::from_bytes` accepts `key` as a
/// public key.
pub uninterp spec fn ed25519_key_valid(key: Seq<u8>) -> bool;

/// Whether `signature` is a valid Ed25519 signature of `message` under the
/// public key `key`.
pub uninterp spec fn ed25519_verifies(key: Seq<u8>, message: Seq<u8>, signature: Seq<u8>) -> bool;

/// `ed25519_dalek::VerifyingKey::from_bytes(public_key)` and then its
/// `verify(message, &Signature::from_bytes(signature))`: `None` when the key
/// is not a valid public key, else whether the signature verifies.  The
/// contract names both.
#[verifier::external_body]
fn verify_signature(public_key: &[u8; 32], message: &[u8], signature: &[u8; 64]) -> (r: Option<
    bool,
>)
    ensures
        r is None <==> !ed25519_key_valid(public_key@),
        r matches Some(ok) ==> ok == ed25519_verifies(public_key@, message@, signature@),
{
    match ed25519_dalek::VerifyingKey::from_bytes(public_key) {
        Ok(key) => Some(
            ed25519_dalek::Verifier::verify(
                &key,
                message,
                &ed25519_dalek::Signature::from_bytes(signature),
            ).is_ok(),
        ),
        Err(_) => None,
    }
}

/// The registration a license grants.
#[derive(Debug)]
pub struct RegistrationInfo {
    pub version: String,
    pub licensee: String,
    pub expiry: Timestamp,
    pub expiry_raw: String,
    pub product_key: String,
}

/// The fields of a license text, each read from its line.
#[derive(Debug, PartialEq, Eq)]
pub struct LicenseFields {
    pub version: Option<String>,
    pub licensee: Option<String>,
    pub expiry: Option<String>,
    pub product_key: Option<String>,
}

pub open spec fn opt_view(o: Option<String>) -> Option<Seq<char>> {
    match o {
        Some(s) => Some(s@),
        None => None,
    }
}

/// Line `k` of `ls` without `prefix` and trimmed; `None` when there is no
/// such line or it lacks the prefix.
pub open spec fn license_field(ls: Seq<Seq<char>>, k: int, prefix: Seq<char>) -> Option<Seq<char>> {
    if 0 <= k < ls.len() {
        match spec_strip_prefix(ls[k], prefix) {
            Some(rest) => Some(spec_trim(rest)),
            None => None,
        }
    } else {
        None
    }
}

/// The fields of license text `text`: after a first line, the lines
/// `VERSION:`, `LICENSEE:`, `EXPIRY:` and `PROD_KEY:`.
pub open spec fn spec_license_fields(text: Seq<char>) -> (
    Option<Seq<char>>,
    Option<Seq<char>>,
    Option<Seq<char>>,
    Option<Seq<char>>,
) {
    let ls = spec_lines(text);
    (
        license_field(ls, 1, "VERSION:"@),
        license_field(ls, 2, "LICENSEE:"@),
        license_field(ls, 3, "EXPIRY:"@),
        license_field(ls, 4, "PROD_KEY:"@),
    )
}

fn field(ls: &Vec<Vec<char>>, k: usize, prefix: &str) -> (r: Option<String>)
    ensures
        opt_view(r) == license_field(ls@.map_values(|l: Vec<char>| l@), k as int, prefix@),
{
    let ghost lv = ls@.map_values(|l: Vec<char>| l@);
    if k >= ls.len() {
        return None;
    }
    assert(lv[k as int] == ls@[k as int]@);
    match strip_prefix(ls[k].as_slice(), prefix) {
        Some(rest) => {
            let t = trim(rest.as_slice());
            Some(string_of(t.as_slice()))
        },
        None => None,
    }
}

/// Reads the fields of a license text, which follows this format:
/// =============START OF LICENSE=============
/// VERSION: 1.0
/// LICENSEE: Wayside School
/// EXPIRY: YYYY-MM-DD
/// PROD_KEY: ABCDEFGHIJKLMNOPQRSTUVWXYZ012345
/// ==============END OF LICENSE==============
pub fn read_license(text: &str) -> (r: LicenseFields)
    ensures
        (opt_view(r.version), opt_view(r.licensee), opt_view(r.expiry), opt_view(r.product_key))
            == spec_license_fields(text@),
{
    let chars = chars_of(text);
    let ls = lines(chars.as_slice());
    LicenseFields {
        version: field(&ls, 1, "VERSION:"),
        licensee: field(&ls, 2, "LICENSEE:"),
        expiry: field(&ls, 3, "EXPIRY:"),
        product_key: field(&ls, 4, "PROD_KEY:"),
    }
}

pub open spec fn other_error(r: Result<RegistrationInfo, Reason>, m: Seq<char>) -> bool {
    r matches Err(Reason::Other(x)) && x@ == m
}

/// What reading a license gives, from its fields, whether its expiry date
/// parses, and the instant that ends that day (when the time zone has one).
pub open spec fn license_result_ok(
    fields: (Option<Seq<char>>, Option<Seq<char>>, Option<Seq<char>>, Option<Seq<char>>),
    date_ok: bool,
    expiry: Option<Timestamp>,
    r: Result<RegistrationInfo, Reason>,
) -> bool {
    if fields.0 is None {
        other_error(r, "Failed to read version number"@)
    } else if fields.1 is None {
        other_error(r, "Failed to read licensee"@)
    } else if fields.2 is None {
        other_error(r, "Failed to read expiry"@)
    } else if !date_ok {
        other_error(r, "Invalid expiry date format"@)
    } else if expiry is None {
        other_error(r, "Could not construct expiry datetime"@)
    } else if fields.3 is None {
        other_error(r, "Failed to read product key"@)
    } else {
        r matches Ok(info) && info.version@ == fields.0->0 && info.licensee@ == fields.1->0
            && info.expiry_raw@ == fields.2->0 && info.product_key@ == fields.3->0 && info.expiry
            == expiry->0
    }
}

/// The expiry field is present and parses as a date.
pub open spec fn date_field_ok(expiry: Option<Seq<char>>) -> bool {
    expiry matches Some(e) && iso_date_accepted(e)
}

/// An expiry instant found for expiry text `expiry`, if any, is 23:59:59 of
/// the date it names, in some time zone.
pub open spec fn expiry_fits(expiry: Option<Seq<char>>, instant: Option<Timestamp>) -> bool {
    instant matches Some(t) ==> (expiry matches Some(e) && iso_date(e) matches Some(d)
        && local_reading_of(t, CivilDate { year: d.0, month: d.1, day: d.2 }, 23, 59, 59))
}

/// What reading license text `text` gives: `r` as `license_result_ok` says,
/// for an expiry instant that fits the expiry date (or none, when the
/// machine's time zone has no single such instant).
pub open spec fn license_read(text: Seq<char>, r: Result<RegistrationInfo, Reason>) -> bool {
    let fields = spec_license_fields(text);
    exists|x: Option<Timestamp>|
        #[trigger] license_result_ok(fields, date_field_ok(fields.2), x, r) && expiry_fits(
            fields.2,
            x,
        )
}

impl RegistrationInfo {
    /// The registration of license fields `fields`, given whether the
    /// expiry date parses and the instant at which that day ends.
    pub fn from_fields(fields: LicenseFields, date_ok: bool, expiry: Option<Timestamp>) -> (r:
        Result<RegistrationInfo, Reason>)
        ensures
            license_result_ok(
                (
                    opt_view(fields.version),
                    opt_view(fields.licensee),
                    opt_view(fields.expiry),
                    opt_view(fields.product_key),
                ),
                date_ok,
                expiry,
                r,
            ),
    {
        let version = match fields.version {
            Some(v) => v,
            None => return Err(Reason::Other(String::from_str("Failed to read version number"))),
        };
        let licensee = match fields.licensee {
            Some(v) => v,
            None => return Err(Reason::Other(String::from_str("Failed to read licensee"))),
        };
        let expiry_raw = match fields.expiry {
            Some(v) => v,
            None => return Err(Reason::Other(String::from_str("Failed to read expiry"))),
        };
        if !date_ok {
            return Err(Reason::Other(String::from_str("Invalid expiry date format")));
        }
        let expiry = match expiry {
            Some(t) => t,
            None => return Err(Reason::Other(String::from_str("Could not construct expiry datetime"))),
        };
        let product_key = match fields.product_key {
            Some(v) => v,
            None => return Err(Reason::Other(String::from_str("Failed to read product key"))),
        };
        Ok(RegistrationInfo { version, licensee, expiry, expiry_raw, product_key })
    }

    /// Constructs product registration info from a license text (see
    /// `read_license` for the format).  The expiry is the last second,
    /// 23:59:59, of the expiry date in the machine's time zone; when that
    /// time zone has no single such instant, the license is refused with
    /// "Could not construct expiry datetime".
    pub fn new(info: String) -> (r: Result<RegistrationInfo, Reason>)
        ensures
            license_read(info@, r),
    {
        let fields = read_license(info.as_str());
        let ghost fv = spec_license_fields(info@);
        let (date_ok, expiry) = match &fields.expiry {
            Some(raw) if fields.version.is_some() && fields.licensee.is_some() => {
                match parse_iso_date(raw.as_str()) {
                    Some(date) => (true, local_instant(&date, 23, 59, 59)),
                    None => (false, None),
                }
            },
            Some(raw) => (parse_iso_date(raw.as_str()).is_some(), None),
            None => (false, None),
        };
        let r = Self::from_fields(fields, date_ok, expiry);
        assert(license_result_ok(fv, date_field_ok(fv.2), expiry, r));
        assert(expiry_fits(fv.2, expiry));
        r
    }
}

/// The text that a license's product key signs: version, licensee and raw
/// expiry, separated by `|`.
pub open spec fn spec_license_payload(
    version: Seq<char>,
    licensee: Seq<char>,
    expiry: Seq<char>,
) -> Seq<char> {
    version + "|"@ + licensee + "|"@ + expiry
}

pub fn license_payload(version: &str, licensee: &str, expiry: &str) -> (r: String)
    ensures
        r@ == spec_license_payload(version@, licensee@, expiry@),
{
    let mut s = String::from_str(version);
    s.append("|");
    s.append(licensee);
    s.append("|");
    s.append(expiry);
    s
}

/// One day, in nanoseconds.
pub open spec fn day_nanos() -> int {
    86_400_000_000_000
}

/// The registration a license grants at time `now` under public key
/// `public_key`: unregistered unless the product key is the base64 of a
/// 64-byte signature; `None` when the public key itself is invalid; then
/// unregistered unless the signature of the payload verifies; then expired
/// when a day has passed since the expiry, registered otherwise.
pub open spec fn spec_validate(
    info: RegistrationInfo,
    public_key: Seq<u8>,
    now: Timestamp,
) -> Option<Registration> {
    match base64_standard_decode(info.product_key@) {
        None => Some(Registration::Unregistered),
        Some(sig) => if sig.len() != 64 {
            Some(Registration::Unregistered)
        } else if !ed25519_key_valid(public_key) {
            None
        } else if !ed25519_verifies(
            public_key,
            vstd::utf8::encode_utf8(
                spec_license_payload(info.version@, info.licensee@, info.expiry_raw@),
            ),
            sig,
        ) {
            Some(Registration::Unregistered)
        } else if total_nanos(info.expiry) + day_nanos() < total_nanos(now) {
            Some(Registration::Expired)
        } else {
            Some(Registration::Registered)
        },
    }
}

impl RegistrationInfo {
    /// The registration this license grants at time `now` (see
    /// `spec_validate`).
    pub fn validate_at(&self, public_key: &[u8; 32], now: Timestamp) -> (r: Option<Registration>)
        ensures
            r == spec_validate(*self, public_key@, now),
    {
        let payload = license_payload(
            self.version.as_str(),
            self.licensee.as_str(),
            self.expiry_raw.as_str(),
        );
        let signature = match decode_base64(self.product_key.as_str()) {
            Some(s) => s,
            None => return Some(Registration::Unregistered),
        };
        if signature.len() != 64 {
            return Some(Registration::Unregistered);
        }
        let mut sig: [u8; 64] = [0u8; 64];
        let mut i: usize = 0;
        while i < 64
            invariant
                i <= 64,
                signature@.len() == 64,
                sig@.len() == 64,
                forall|j: int| 0 <= j < i ==> sig@[j] == signature@[j],
            decreases 64 - i,
        {
            sig[i] = signature[i];
            i = i + 1;
        }
        assert(sig@ =~= signature@);
        let bytes = payload.as_str().as_bytes();
        assert(bytes@ == vstd::utf8::encode_utf8(payload@));
        let verified = match verify_signature(public_key, bytes, &sig) {
            Some(ok) => ok,
            None => return None,
        };
        if !verified {
            return Some(Registration::Unregistered);
        }
        let expiry: i128 = self.expiry.secs as i128 * 1_000_000_000 + self.expiry.nanos as i128;
        let current: i128 = now.secs as i128 * 1_000_000_000 + now.nanos as i128;
        if expiry + 86_400_000_000_000 < current {
            Some(Registration::Expired)
        } else {
            Some(Registration::Registered)
        }
    }

    /// The registration this license grants now; `None` when the public key
    /// is invalid.
    pub fn validate(&self, public_key: &[u8; 32]) -> (r: Option<Registration>)
        ensures
            exists|t: Timestamp| r == #[trigger] spec_validate(*self, public_key@, t),
    {
        let t = now();
        self.validate_at(public_key, t)
    }
}

/// The Ed25519 public key of secret key `secret`
/// (`ed25519_dalek::SigningKey::verifying_key`, as bytes).
pub uninterp spec fn ed25519_public_key(secret: Seq<u8>) -> Seq<u8>;

/// `ed25519_dalek::SigningKey::from_bytes(secret).verifying_key()`, as
/// bytes.  The contract names the result and states what the crate
/// documents of it: it is a valid public key.
#[verifier::external_body]
fn derive_public_key(secret: &[u8; 32]) -> (r: [u8; 32])
    ensures
        r@ == ed25519_public_key(secret@),
        ed25519_key_valid(r@),
{
    ed25519_dalek::SigningKey::from_bytes(secret).verifying_key().to_bytes()
}

/// Whether `public_key` is the public key of secret key `secret`, so that
/// it accepts the licenses that `secret` signs.
pub fn key_pair_matches(secret: &[u8; 32], public_key: &[u8; 32]) -> (r: bool)
    ensures
        r == (public_key@ == ed25519_public_key(secret@)),
{
    let derived = derive_public_key(secret);
    let mut i: usize = 0;
    while i < 32
        invariant
            i <= 32,
            derived@.len() == 32,
            derived@ == ed25519_public_key(secret@),
            public_key@.len() == 32,
            forall|j: int| 0 <= j < i ==> derived@[j] == public_key@[j],
        decreases 32 - i,
    {
        if derived[i] != public_key[i] {
            assert(derived@[i as int] != public_key@[i as int]);
            return false;
        }
        i = i + 1;
    }
    assert(derived@ =~= public_key@);
    true
}

/// The Ed25519 signature of `message` under secret key `secret`.
pub uninterp spec fn ed25519_signature(secret: Seq<u8>, message: Seq<u8>) -> Seq<u8>;

/// `signature` is a valid signature of `message` under `public_key`, which
/// is a valid public key.
pub open spec fn signed_under_valid_key(
    public_key: Seq<u8>,
    message: Seq<u8>,
    signature: Seq<u8>,
) -> bool {
    ed25519_key_valid(public_key) && ed25519_verifies(public_key, message, signature)
}

/// `ed25519_dalek::SigningKey::from_bytes(secret).sign(message)`, as bytes.
/// The contract names the result and states what the crate documents of
/// it: it verifies under the public half of the key, a valid public key.
#[verifier::external_body]
fn sign_message(secret: &[u8; 32], message: &[u8]) -> (r: [u8; 64])
    ensures
        r@ == ed25519_signature(secret@, message@),
        signed_under_valid_key(ed25519_public_key(secret@), message@, r@),
{
    ed25519_dalek::Signer::sign(&ed25519_dalek::SigningKey::from_bytes(secret), message).to_bytes()
}

/// What `base64`'s standard engine encodes `bytes` to.
pub uninterp spec fn base64_standard_encode(bytes: Seq<u8>) -> Seq<char>;

/// A character of the standard base64 alphabet, or its padding.
pub open spec fn is_base64_char(c: char) -> bool {
    ('A' <= c <= 'Z') || ('a' <= c <= 'z') || ('0' <= c <= '9') || c == '+' || c == '/' || c
        == '='
}

/// `base64::engine::general_purpose::STANDARD.encode(bytes)`.  The contract
/// names the result and states what the crate documents of it: it is made
/// of the standard alphabet and padding, and decodes back to `bytes`.
#[verifier::external_body]
fn encode_base64(bytes: &[u8; 64]) -> (r: String)
    ensures
        r@ == base64_standard_encode(bytes@),
        base64_standard_decode(r@) == Some(bytes@),
        forall|i: int| 0 <= i < r@.len() ==> is_base64_char(#[trigger] r@[i]),
{
    base64::Engine::encode(&base64::engine::general_purpose::STANDARD, bytes)
}

/// `key` is a product key issued with secret key `secret` for a license of
/// `version`, `licensee` and `expiry`: the base64 of a 64-byte signature of
/// their payload that verifies under the secret key's public key, which is a
/// valid one.
pub open spec fn issued_key(
    key: Seq<char>,
    secret: Seq<u8>,
    version: Seq<char>,
    licensee: Seq<char>,
    expiry: Seq<char>,
) -> bool {
    exists|sig: Seq<u8>|
        #[trigger] signed_under_valid_key(
            ed25519_public_key(secret),
            vstd::utf8::encode_utf8(spec_license_payload(version, licensee, expiry)),
            sig,
        ) && base64_standard_decode(key) == Some(sig) && sig.len() == 64
}

/// A value a license line carries unchanged: one line, without surrounding
/// white space.
pub open spec fn clean_field(s: Seq<char>) -> bool {
    &&& forall|j: int| 0 <= j < s.len() ==> s[j] != '\n'
    &&& spec_trim(s) == s
}

/// The product key for a license of `version`, `licensee` and `expiry`,
/// signed with secret key `secret`: the base64 of the signature of their
/// payload.
pub fn product_key(secret: &[u8; 32], version: &str, licensee: &str, expiry: &str) -> (r: String)
    ensures
        r@ == base64_standard_encode(
            ed25519_signature(
                secret@,
                vstd::utf8::encode_utf8(spec_license_payload(version@, licensee@, expiry@)),
            ),
        ),
        issued_key(r@, secret@, version@, licensee@, expiry@),
        clean_field(r@),
{
    let payload = license_payload(version, licensee, expiry);
    let bytes = payload.as_str().as_bytes();
    assert(bytes@ == vstd::utf8::encode_utf8(payload@));
    let sig = sign_message(secret, bytes);
    let key = encode_base64(&sig);
    proof {
        assert(signed_under_valid_key(
            ed25519_public_key(secret@),
            vstd::utf8::encode_utf8(spec_license_payload(version@, licensee@, expiry@)),
            sig@,
        ));
        assert(base64_standard_decode(key@) == Some(sig@));
        assert forall|j: int| 0 <= j < key@.len() implies !spec_is_whitespace(key@[j]) by {
            assert(is_base64_char(key@[j]));
        }
        lemma_trim_none(key@);
    }
    key
}

pub open spec fn license_header() -> Seq<char> {
    "=============START OF LICENSE============="@
}

pub open spec fn license_footer() -> Seq<char> {
    "==============END OF LICENSE=============="@
}

/// The license text that the signing tool hands out.
pub open spec fn spec_license_block(
    version: Seq<char>,
    licensee: Seq<char>,
    expiry: Seq<char>,
    key: Seq<char>,
) -> Seq<char> {
    license_header() + "\nVERSION: "@ + version + "\nLICENSEE: "@ + licensee + "\nEXPIRY: "@
        + expiry + "\nPROD_KEY: "@ + key + "\n"@ + license_footer()
}

/// The license text for `version`, `licensee`, `expiry` and product key
/// `key`, in the format `read_license` reads.
pub fn license_block(version: &str, licensee: &str, expiry: &str, key: &str) -> (r: String)
    ensures
        r@ == spec_license_block(version@, licensee@, expiry@, key@),
{
    let mut s = String::from_str("=============START OF LICENSE=============");
    s.append("\nVERSION: ");
    s.append(version);
    s.append("\nLICENSEE: ");
    s.append(licensee);
    s.append("\nEXPIRY: ");
    s.append(expiry);
    s.append("\nPROD_KEY: ");
    s.append(key);
    s.append("\n");
    s.append("==============END OF LICENSE==============");
    s
}

pub open spec fn bad_date_message(expiry: Seq<char>) -> Seq<char> {
    "EXPIRY '"@ + expiry + "' is not a valid YYYY-MM-DD date. Aborting."@
}

pub open spec fn empty_field_message() -> Seq<char> {
    "VERSION and LICENSEE must not be empty. Aborting."@
}

/// What the signing tool checks before it signs: an expiry in the
/// `YYYY-MM-DD` form, then a version and a licensee.
pub fn check_license_request(version: &str, licensee: &str, expiry: &str) -> (r: Result<
    (),
    String,
>)
    ensures
        !iso_date_accepted(expiry@) ==> (r matches Err(m) && m@ == bad_date_message(expiry@)),
        iso_date_accepted(expiry@) && (version@.len() == 0 || licensee@.len() == 0) ==> (r matches Err(
            m,
        ) && m@ == empty_field_message()),
        iso_date_accepted(expiry@) && version@.len() > 0 && licensee@.len() > 0 ==> r is Ok,
{
    if parse_iso_date(expiry).is_none() {
        let mut m = String::from_str("EXPIRY '");
        m.append(expiry);
        m.append("' is not a valid YYYY-MM-DD date. Aborting.");
        return Err(m);
    }
    if version.unicode_len() == 0 || licensee.unicode_len() == 0 {
        return Err(String::from_str("VERSION and LICENSEE must not be empty. Aborting."));
    }
    Ok(())
}

/// The product key of a license that the signing tool issued checks out:
/// the license is registered until a day after its expiry, and expired
/// after that.
pub proof fn lemma_issued_license_validates(info: RegistrationInfo, secret: Seq<u8>, now: Timestamp)
    requires
        issued_key(info.product_key@, secret, info.version@, info.licensee@, info.expiry_raw@),
    ensures
        spec_validate(info, ed25519_public_key(secret), now) == Some(
            if total_nanos(info.expiry) + day_nanos() < total_nanos(now) {
                Registration::Expired
            } else {
                Registration::Registered
            },
        ),
{
    let sig = choose|sig: Seq<u8>|
        #[trigger] signed_under_valid_key(
            ed25519_public_key(secret),
            vstd::utf8::encode_utf8(
                spec_license_payload(info.version@, info.licensee@, info.expiry_raw@),
            ),
            sig,
        ) && base64_standard_decode(info.product_key@) == Some(sig) && sig.len() == 64;
    assert(base64_standard_decode(info.product_key@) == Some(sig));
}

proof fn lemma_field_line(prefix: Seq<char>, v: Seq<char>)
    requires
        prefix.len() > 0,
        prefix.last() == ':',
        forall|j: int| 0 <= j < prefix.len() ==> prefix[j] != '\n',
        clean_field(v),
    ensures
        forall|j: int| 0 <= j < (prefix + seq![' '] + v).len() ==> (prefix + seq![' '] + v)[j]
            != '\n',
        strip_cr(prefix + seq![' '] + v) == prefix + seq![' '] + v,
        spec_strip_prefix(prefix + seq![' '] + v, prefix) matches Some(rest) && spec_trim(rest)
            == v,
{
    let line = prefix + seq![' '] + v;
    if v.len() > 0 {
        lemma_trimmed_ends(v);
        assert(line.last() == v.last());
    }
    assert(line.take(prefix.len() as int) =~= prefix);
    assert(line.skip(prefix.len() as int) =~= seq![' '] + v);
    lemma_trim_after_space(v);
    assert forall|j: int| 0 <= j < line.len() implies line[j] != '\n' by {
        if j >= prefix.len() + 1 {
            assert(line[j] == v[j - prefix.len() - 1]);
        }
    }
}

/// The license text that the signing tool hands out reads back as the
/// fields it was made of.
pub proof fn lemma_license_block_reads_back(
    version: Seq<char>,
    licensee: Seq<char>,
    expiry: Seq<char>,
    key: Seq<char>,
)
    requires
        clean_field(version),
        clean_field(licensee),
        clean_field(expiry),
        clean_field(key),
    ensures
        spec_license_fields(spec_license_block(version, licensee, expiry, key)) == (
            Some(version),
            Some(licensee),
            Some(expiry),
            Some(key),
        ),
{
    reveal_strlit("=============START OF LICENSE=============");
    reveal_strlit("==============END OF LICENSE==============");
    reveal_strlit("\nVERSION: ");
    reveal_strlit("\nLICENSEE: ");
    reveal_strlit("\nEXPIRY: ");
    reveal_strlit("\nPROD_KEY: ");
    reveal_strlit("\n");
    reveal_strlit("VERSION:");
    reveal_strlit("LICENSEE:");
    reveal_strlit("EXPIRY:");
    reveal_strlit("PROD_KEY:");
    let nl = seq!['\n'];
    let l1 = "VERSION:"@ + seq![' '] + version;
    let l2 = "LICENSEE:"@ + seq![' '] + licensee;
    let l3 = "EXPIRY:"@ + seq![' '] + expiry;
    let l4 = "PROD_KEY:"@ + seq![' '] + key;
    lemma_field_line("VERSION:"@, version);
    lemma_field_line("LICENSEE:"@, licensee);
    lemma_field_line("EXPIRY:"@, expiry);
    lemma_field_line("PROD_KEY:"@, key);
    let t4 = l4 + nl + license_footer();
    let t3 = l3 + nl + t4;
    let t2 = l2 + nl + t3;
    let t1 = l1 + nl + t2;
    let t0 = license_header() + nl + t1;
    assert(spec_license_block(version, licensee, expiry, key) =~= t0);
    lemma_lines_cons(license_header(), t1);
    lemma_lines_cons(l1, t2);
    lemma_lines_cons(l2, t3);
    lemma_lines_cons(l3, t4);
    lemma_lines_cons(l4, license_footer());
    let ls = spec_lines(t0);
    assert(ls[1] == l1);
    assert(ls[2] == l2);
    assert(ls[3] == l3);
    assert(ls[4] == l4);
}

/// A license that the signing tool issued, read back from its text as
/// `RegistrationInfo::new` reads it, holds the signed fields and an expiry
/// at the end of its expiry date, and checks, under any public key that
/// `key_pair_matches` accepts for the signing key, as registered until a day
/// after that expiry and as expired after that.
pub proof fn lemma_issued_license_round_trip(
    version: Seq<char>,
    licensee: Seq<char>,
    expiry: Seq<char>,
    key: Seq<char>,
    secret: Seq<u8>,
    public_key: Seq<u8>,
    info: RegistrationInfo,
    now: Timestamp,
)
    requires
        clean_field(version),
        clean_field(licensee),
        clean_field(expiry),
        clean_field(key),
        issued_key(key, secret, version, licensee, expiry),
        public_key == ed25519_public_key(secret),
        license_read(
            spec_license_block(version, licensee, expiry, key),
            Ok::<RegistrationInfo, Reason>(info),
        ),
    ensures
        info.version@ == version,
        info.licensee@ == licensee,
        info.expiry_raw@ == expiry,
        info.product_key@ == key,
        iso_date(expiry) matches Some(d) && local_reading_of(
            info.expiry,
            CivilDate { year: d.0, month: d.1, day: d.2 },
            23,
            59,
            59,
        ),
        spec_validate(info, public_key, now) == Some(
            if total_nanos(info.expiry) + day_nanos() < total_nanos(now) {
                Registration::Expired
            } else {
                Registration::Registered
            },
        ),
{
    lemma_license_block_reads_back(version, licensee, expiry, key);
    let fields = spec_license_fields(spec_license_block(version, licensee, expiry, key));
    let x = choose|x: Option<Timestamp>|
        #[trigger] license_result_ok(fields, date_field_ok(fields.2), x, Ok::<RegistrationInfo, Reason>(info))
            && expiry_fits(fields.2, x);
    assert(license_result_ok(fields, date_field_ok(fields.2), x, Ok::<RegistrationInfo, Reason>(info)));
    lemma_issued_license_validates(info, secret, now);
}

/// Whole days from `now` to `expiry`, rounded toward zero.
pub open spec fn spec_days_remaining(expiry: Timestamp, now: Timestamp) -> int {
    let d = total_nanos(expiry) - total_nanos(now);
    if d >= 0 {
        d / day_nanos()
    } else {
        -((-d) / day_nanos())
    }
}

pub fn days_remaining(expiry: Timestamp, now: Timestamp) -> (r: i128)
    ensures
        r == spec_days_remaining(expiry, now),
{
    let e: i128 = expiry.secs as i128 * 1_000_000_000 + expiry.nanos as i128;
    let n: i128 = now.secs as i128 * 1_000_000_000 + now.nanos as i128;
    let d: i128 = e - n;
    if d >= 0 {
        d / 86_400_000_000_000
    } else {
        -((-d) / 86_400_000_000_000)
    }
}

pub open spec fn signed_decimal(n: int) -> Seq<char> {
    if n < 0 {
        seq!['-'] + decimal_digits((-n) as nat)
    } else {
        decimal_digits(n as nat)
    }
}

pub open spec fn unregistered_text() -> Seq<char> {
    "Unregistered CheckpointPro - For personal use only."@
}

/// The line shown under the start screen about the registration.
pub open spec fn spec_registration_text(
    status: Option<Registration>,
    licensee: Seq<char>,
    days: int,
) -> Seq<char> {
    match status {
        Some(Registration::Unregistered) => unregistered_text(),
        Some(Registration::Expired) => "Your registration for CheckpointPro has expired."@,
        Some(Registration::Registered) => "Registered to "@ + licensee + " \u{2014} "@
            + signed_decimal(days) + " days remaining"@,
        None => unregistered_text(),
    }
}

/// The line shown under the start screen about the registration at time
/// `now`.
pub fn registration_text(
    status: Option<Registration>,
    registration: &Option<RegistrationInfo>,
    now: Timestamp,
) -> (r: String)
    requires
        status == Some(Registration::Registered) ==> registration is Some,
    ensures
        match registration {
            Some(info) => r@ == spec_registration_text(
                status,
                info.licensee@,
                spec_days_remaining(info.expiry, now),
            ),
            None => r@ == spec_registration_text(status, Seq::empty(), 0),
        },
{
    match status {
        Some(Registration::Registered) => {
            let info = match registration {
                Some(i) => i,
                None => return String::new(),
            };
            let days = days_remaining(info.expiry, now);
            let mut s = String::from_str("Registered to ");
            s.append(info.licensee.as_str());
            s.append(" \u{2014} ");
            if days < 0 {
                push_char(&mut s, '-');
                let m: i128 = -days;
                push_decimal_wide(&mut s, m as u128);
            } else {
                push_decimal_wide(&mut s, days as u128);
            }
            s.append(" days remaining");
            proof {
                let dd = spec_days_remaining(info.expiry, now);
                assert(s@ =~= "Registered to "@ + info.licensee@ + " \u{2014} "@ + signed_decimal(
                    dd,
                ) + " days remaining"@);
            }
            s
        },
        Some(Registration::Expired) => String::from_str(
            "Your registration for CheckpointPro has expired.",
        ),
        _ => String::from_str("Unregistered CheckpointPro - For personal use only."),
    }
}

/// Appends the decimal form of `n` to `s`.
pub fn push_decimal_wide(s: &mut String, n: u128)
    ensures
        final(s)@ == old(s)@ + decimal_digits(n as nat),
    decreases n,
{
    if n >= 10 {
        push_decimal_wide(s, n / 10);
    }
    let d = (n % 10) as u8;
    let c = (48u8 + d) as char;
    assert(c == crate::text::digit_char((n % 10) as nat));
    push_char(s, c);
    proof {
        if n < 10 {
            assert(old(s)@.push(c) =~= old(s)@ + seq![c]);
        } else {
            assert((old(s)@ + decimal_digits((n / 10) as nat)).push(c) =~= old(s)@
                + decimal_digits((n / 10) as nat).push(c));
        }
    }
}

} // verus!
