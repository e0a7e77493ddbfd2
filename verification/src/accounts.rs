//! Addresses, passwords, tokens and the errors of the server's interface.
use crate::instant::{parsed_instant, Instant};
use crate::models::{hex_digit, ApiEnvelope};
use crate::text::{
    a_text_is_split_at_its_first_mark, ascii_lowered, chars_of, contains_part, decimal,
    digits_value, has_part, leading_zeros_do_not_count, lemma_bare_text_stays, lemma_decimal,
    lemma_trim_of_padded, lemma_trimmed_ends, padded_text, parse_unsigned,
    same_ignoring_ascii_case, split_first, split_once, trim, trimmed, unsigned_number, white_space, zero_padded,
};
use vstd::prelude::*;
use vstd::utf8::encode_utf8;

verus! {

/// An error of the server's interface: an HTTP status and what users read.
#[derive(Debug)]
pub struct ApiError {
    pub status: u16,
    pub message: String,
}

/// A status and a message.
pub type Refusal = (u16, Seq<char>);

impl View for ApiError {
    type V = Refusal;

    open spec fn view(&self) -> Refusal {
        (self.status, self.message@)
    }
}

/// What users read when the server itself failed.
pub open spec fn unavailable() -> Refusal {
    (500u16, "服务暂时不可用"@)
}

impl ApiError {
    /// An error with this status and message.
    pub fn with_status(status: u16, message: &str) -> (r: Self)
        ensures
            r@ == (status, message@),
    {
        ApiError { status, message: message.to_owned() }
    }

    /// A request that cannot be served as it is.
    pub fn bad_request(message: &str) -> (r: Self)
        ensures
            r@ == (400u16, message@),
    {
        ApiError::with_status(400, message)
    }

    /// A request without a valid session.
    pub fn unauthorized(message: &str) -> (r: Self)
        ensures
            r@ == (401u16, message@),
    {
        ApiError::with_status(401, message)
    }

    /// A request that does not fit the present state.
    pub fn conflict(message: &str) -> (r: Self)
        ensures
            r@ == (409u16, message@),
    {
        ApiError::with_status(409, message)
    }

    /// A failure of the server itself.
    pub fn internal() -> (r: Self)
        ensures
            r@ == unavailable(),
    {
        ApiError::with_status(500, "服务暂时不可用")
    }

    /// The answer that carries this error: its status is the code, and there is no data.
    pub fn into_envelope(self) -> (r: ApiEnvelope<()>)
        ensures
            r.code == self.status,
            r.message@ == self.message@,
    {
        ApiEnvelope { code: self.status as i32, message: self.message, data: () }
    }
}

/// The answer that carries `data`.
pub fn ok<T>(data: T) -> (r: ApiEnvelope<T>)
    ensures
        r.code == 0,
        r.message@ == "ok"@,
        r.data == data,
{
    ApiEnvelope { code: 0, message: "ok".to_owned(), data }
}

/// A text in lower case, as std has it.
pub uninterp spec fn lowercase(s: Seq<char>) -> Seq<char>;

/// Whether a text is all ASCII.
pub open spec fn all_ascii(s: Seq<char>) -> bool {
    forall|i: int| 0 <= i < s.len() ==> (#[trigger] s[i]) as int <= 127
}

/// Calls std's `str::to_lowercase`: the text in lower case, after Unicode. Of an ASCII text it puts
/// the letters `A` to `Z` into lower case, and that again changes nothing. Nothing is said of
/// lower-casing other texts twice.
#[verifier::external_body]
fn to_lowercase(s: &str) -> (r: String)
    ensures
        r@ == lowercase(s@),
        all_ascii(s@) ==> r@ == ascii_lowered(s@) && lowercase(r@) == r@,
{
    s.to_lowercase()
}

/// Whether a text has the form of a mail address.
pub open spec fn valid_email(s: Seq<char>) -> bool {
    encode_utf8(s).len() <= 254 && match split_first(s, '@') {
        Some((local, domain)) => local.len() > 0 && has_part(domain, "."@) && !(domain.last()
            == '.'),
        None => false,
    }
}

/// Whether `s` has the form of a mail address.
pub fn is_valid_email(s: &str) -> (r: bool)
    ensures
        r == valid_email(s@),
{
    if s.as_bytes().len() > 254 {
        return false;
    }
    match split_once(s, '@') {
        Some((local, domain)) => {
            if !contains_part(domain.as_str(), ".") {
                return false;
            }
            let chars = chars_of(domain.as_str());
            proof {
                reveal_strlit(".");
                assert(domain@.len() > 0);
            }
            !local.as_str().is_empty() && chars[chars.len() - 1] != '.'
        },
        None => false,
    }
}

/// The address under which an account is kept, or the refusal of one.
pub open spec fn normalized_email(value: Seq<char>) -> Result<Seq<char>, Refusal> {
    let email = lowercase(trimmed(value));
    if valid_email(email) {
        Ok(email)
    } else {
        Err((400u16, "邮箱格式不正确"@))
    }
}

/// `lowered` if it has the form of a mail address.
pub fn accept_email(lowered: String) -> (r: Result<String, ApiError>)
    ensures
        match r {
            Ok(email) => valid_email(lowered@) && email@ == lowered@,
            Err(e) => !valid_email(lowered@) && e@ == (400u16, "邮箱格式不正确"@),
        },
{
    if is_valid_email(lowered.as_str()) {
        Ok(lowered)
    } else {
        Err(ApiError::bad_request("邮箱格式不正确"))
    }
}

/// The address under which an account is kept: without white space at its ends, in lower case.
pub fn normalize_email(value: &str) -> (r: Result<String, ApiError>)
    ensures
        match r {
            Ok(email) => normalized_email(value@) == Ok::<Seq<char>, Refusal>(email@),
            Err(e) => normalized_email(value@) == Err::<Seq<char>, Refusal>(e@),
        },
        all_ascii(trimmed(value@)) ==> lowercase(trimmed(value@)) == ascii_lowered(
            trimmed(value@),
        ),
        all_ascii(trimmed(value@)) ==> (r matches Ok(email) ==> normalized_email(email@) == Ok::<
            Seq<char>,
            Refusal,
        >(email@)),
{
    let trimmed_value = trim(value);
    let lowered = to_lowercase(trimmed_value.as_str());
    proof {
        let t = trimmed(value@);
        if all_ascii(t) {
            lemma_trimmed_ends(value@);
            lemma_bare_text_stays(ascii_lowered(t));
        }
    }
    accept_email(lowered)
}

/// An address that was accepted is accepted unchanged, where lower-casing and trimming leave it as
/// it is.
pub proof fn an_accepted_address_is_accepted_again(value: Seq<char>, email: Seq<char>)
    requires
        normalized_email(value) == Ok::<Seq<char>, Refusal>(email),
        lowercase(email) == email,
        trimmed(email) == email,
    ensures
        normalized_email(email) == Ok::<Seq<char>, Refusal>(email),
{
}

/// White space around an address makes no difference.
pub proof fn blanks_around_an_address_do_not_matter(
    before: Seq<char>,
    address: Seq<char>,
    after: Seq<char>,
)
    requires
        forall|i: int| 0 <= i < before.len() ==> white_space(#[trigger] before[i]),
        forall|i: int| 0 <= i < after.len() ==> white_space(#[trigger] after[i]),
    ensures
        normalized_email(before + address + after) == normalized_email(address),
{
    lemma_trim_of_padded(before, address, after);
}

/// Whether a password has an acceptable length, in characters.
pub open spec fn valid_password(s: Seq<char>) -> bool {
    8 <= s.len() <= 128
}

/// Refuses passwords that are too short or too long.
pub fn validate_password(value: &str) -> (r: Result<(), ApiError>)
    ensures
        match r {
            Ok(()) => valid_password(value@),
            Err(e) => !valid_password(value@) && e@ == (400u16, "密码长度应为 8 到 128 个字符"@),
        },
{
    let n: usize = value.unicode_len();
    if n < 8 || n > 128 {
        return Err(ApiError::bad_request("密码长度应为 8 到 128 个字符"));
    }
    Ok(())
}

/// The SHA-256 digest of a text in hexadecimal, as `sha2` has it.
pub uninterp spec fn sha256_hex(s: Seq<char>) -> Seq<char>;

/// Calls `sha2`'s `Sha256::digest` on the UTF-8 bytes of a text and writes the digest in
/// hexadecimal: 64 lower-case digits.
#[verifier::external_body]
fn sha256_text(value: &str) -> (r: String)
    ensures
        r@ == sha256_hex(value@),
        r@.len() == 64,
        forall|i: int| 0 <= i < 64 ==> hex_digit(#[trigger] r@[i]),
{
    format!("{:x}", <sha2::Sha256 as sha2::Digest>::digest(value.as_bytes()))
}

/// What is kept of a token or code: its digest.
pub fn token_hash(value: &str) -> (r: String)
    ensures
        r@ == sha256_hex(value@),
        r@.len() == 64,
        forall|i: int| 0 <= i < 64 ==> hex_digit(#[trigger] r@[i]),
{
    sha256_text(value)
}

/// The Argon2 hash of a password under a salt, as `argon2` has it with its default parameters.
pub uninterp spec fn argon2_hash(password: Seq<char>, salt: Seq<u8>) -> Option<Seq<char>>;

/// What `argon2` says of a password and a hash: nothing when the hash cannot be read, else whether
/// the password is the one that was hashed.
pub uninterp spec fn password_matches(hash: Seq<char>, password: Seq<char>) -> Option<bool>;

/// Calls `argon2`'s `hash_password` with default parameters and the given salt. The password
/// matches its hash.
#[verifier::external_body]
fn argon2_hash_password(password: &str, salt: &Vec<u8>) -> (r: Option<String>)
    requires
        salt@.len() == 16,
    ensures
        match r {
            Some(hash) => argon2_hash(password@, salt@) == Some(hash@) && password_matches(
                hash@,
                password@,
            ) == Some(true),
            None => argon2_hash(password@, salt@) is None,
        },
{
    let salt = argon2::password_hash::SaltString::encode_b64(salt).ok()?;
    let hasher = argon2::Argon2::default();
    let hash = argon2::PasswordHasher::hash_password(&hasher, password.as_bytes(), &salt).ok()?;
    Some(hash.to_string())
}

/// Calls `argon2`'s `PasswordHash::new` and `verify_password`.
#[verifier::external_body]
fn argon2_verify_password(hash: &str, password: &str) -> (r: Option<bool>)
    ensures
        r == password_matches(hash@, password@),
{
    let parsed = argon2::PasswordHash::new(hash).ok()?;
    let hasher = argon2::Argon2::default();
    Some(argon2::PasswordVerifier::verify_password(&hasher, password.as_bytes(), &parsed).is_ok())
}

/// Calls `rand`'s `fill` on the thread's generator: as many random bytes as are asked for.
#[verifier::external_body]
fn random_bytes(count: usize) -> (r: Vec<u8>)
    ensures
        r@.len() == count,
{
    let mut bytes = vec![0u8; count];
    rand::Rng::fill(&mut rand::rng(), bytes.as_mut_slice());
    bytes
}

/// Calls `rand`'s `random_range` on the thread's generator: a number below `limit`.
#[verifier::external_body]
fn random_below(limit: u32) -> (r: u32)
    requires
        limit > 0,
    ensures
        r < limit,
{
    rand::Rng::random_range(&mut rand::rng(), 0..limit)
}

/// Calls `uuid`'s `Uuid::new_v4` and writes the result without hyphens: 32 hexadecimal digits.
#[verifier::external_body]
fn simple_id() -> (r: String)
    ensures
        r@.len() == 32,
        forall|i: int| 0 <= i < 32 ==> hex_digit(#[trigger] r@[i]),
{
    uuid::Uuid::new_v4().simple().to_string()
}

/// How many bytes a salt has.
pub const SALT_BYTES: usize = 16;

/// How many verification codes there are.
pub const CODES: u32 = 1_000_000;

/// A salt of 16 random bytes.
pub fn fresh_salt() -> (r: Vec<u8>)
    ensures
        r@.len() == 16,
{
    random_bytes(SALT_BYTES)
}

/// The hash of a password under `salt`.
pub fn hash_password_with(value: &str, salt: &Vec<u8>) -> (r: Option<String>)
    requires
        salt@.len() == 16,
    ensures
        match r {
            Some(hash) => argon2_hash(value@, salt@) == Some(hash@) && password_matches(
                hash@,
                value@,
            ) == Some(true),
            None => argon2_hash(value@, salt@) is None,
        },
{
    argon2_hash_password(value, salt)
}

/// The hash of a password under a random salt. The password matches it.
pub fn hash_password(value: &str) -> (r: Option<String>)
    ensures
        r matches Some(hash) ==> password_matches(hash@, value@) == Some(true),
        r matches Some(hash) ==> exists|salt: Seq<u8>|
            salt.len() == 16 && #[trigger] argon2_hash(value@, salt) == Some(hash@),
        r is None ==> exists|salt: Seq<u8>|
            salt.len() == 16 && #[trigger] argon2_hash(value@, salt) is None,
{
    let salt = random_bytes(SALT_BYTES);
    hash_password_with(value, &salt)
}

/// Whether `password` is the one that `hash` was made of; nothing when the hash cannot be read.
pub fn verify_password(hash: &str, password: &str) -> (r: Option<bool>)
    ensures
        r == password_matches(hash@, password@),
{
    argon2_verify_password(hash, password)
}

/// Whether a text is a verification code: six digits.
pub open spec fn is_code(s: Seq<char>) -> bool {
    exists|n: nat| n < 1_000_000 && s == #[trigger] code_text(n)
}

/// A verification code: six digits.
pub fn fresh_code() -> (r: String)
    ensures
        is_code(r@),
{
    let n: u32 = random_below(CODES);
    let r = padded_text(n as u64, 6);
    assert(r@ == code_text(n as nat));
    r
}

/// A number as a verification code.
pub open spec fn code_text(n: nat) -> Seq<char> {
    zero_padded(decimal(n), 6)
}

/// Whether a text has the form of a session token: 64 hexadecimal digits.
pub open spec fn is_token(s: Seq<char>) -> bool {
    s.len() == 64 && forall|i: int| 0 <= i < 64 ==> hex_digit(#[trigger] s[i])
}

/// A session token: 64 hexadecimal digits.
pub fn fresh_token() -> (r: String)
    ensures
        is_token(r@),
{
    let mut r = simple_id();
    r.append(simple_id().as_str());
    r
}

/// The instant that a stored text stands for.
pub fn parse_utc(value: &str) -> (r: Option<Instant>)
    ensures
        match r {
            Some(t) => parsed_instant(value@) == Some((t.seconds(), t.nanos())),
            None => parsed_instant(value@) is None,
        },
        forall|t: Instant|
            t.valid() && t.readable() && value@ == #[trigger] t.written() ==> r == Some(t),
{
    Instant::parse(value)
}

/// The values of the environment that configure the server.
#[derive(Debug)]
pub struct Environment {
    pub bind: Option<String>,
    pub database_path: Option<String>,
    pub public_base_url: Option<String>,
    pub email_delivery: Option<String>,
    pub email_from: Option<String>,
    pub smtp_host: Option<String>,
    pub smtp_port: Option<String>,
    pub smtp_username: Option<String>,
    pub smtp_password: Option<String>,
}

/// How the server runs.
#[derive(Debug)]
pub struct Config {
    pub bind: String,
    pub database_path: String,
    pub public_base_url: String,
    pub email_delivery: String,
    pub email_from: String,
    pub smtp_host: String,
    pub smtp_port: u16,
    pub smtp_username: String,
    pub smtp_password: String,
}

/// A value, or the default where there is none.
pub open spec fn or_default(value: Option<String>, default: Seq<char>) -> Seq<char> {
    match value {
        Some(text) => text@,
        None => default,
    }
}

/// `value`, or `default` where there is none.
fn value_or(value: Option<String>, default: &str) -> (r: String)
    ensures
        r@ == or_default(value, default@),
{
    match value {
        Some(text) => text,
        None => default.to_owned(),
    }
}

impl Config {
    /// The configuration that the environment gives.
    pub fn from_env(env: Environment) -> (r: Self)
        ensures
            r.bind@ == or_default(env.bind, "127.0.0.1:8010"@),
            r.database_path@ == or_default(env.database_path, "./schedule.db"@),
            r.public_base_url@ == or_default(
                env.public_base_url,
                "https://novel.emssion.com/schedule"@,
            ),
            r.email_delivery@ == or_default(env.email_delivery, "console"@),
            r.email_from@ == or_default(
                env.email_from,
                "Schedule Manager <noreply@mail.emssion.com>"@,
            ),
            r.smtp_host@ == or_default(env.smtp_host, "smtpdm.aliyun.com"@),
            r.smtp_port == (match env.smtp_port {
                Some(text) => match unsigned_number(text@, 10, u16::MAX as int) {
                    Some(port) => port,
                    None => 465,
                },
                None => 465,
            }),
            r.smtp_username@ == or_default(env.smtp_username, ""@),
            r.smtp_password@ == or_default(env.smtp_password, ""@),
    {
        let smtp_port: u16 = match env.smtp_port {
            Some(text) => match parse_unsigned(text.as_str(), 10, u16::MAX as u64) {
                Some(port) => port as u16,
                None => 465,
            },
            None => 465,
        };
        Config {
            bind: value_or(env.bind, "127.0.0.1:8010"),
            database_path: value_or(env.database_path, "./schedule.db"),
            public_base_url: value_or(env.public_base_url, "https://novel.emssion.com/schedule"),
            email_delivery: value_or(env.email_delivery, "console"),
            email_from: value_or(env.email_from, "Schedule Manager <noreply@mail.emssion.com>"),
            smtp_host: value_or(env.smtp_host, "smtpdm.aliyun.com"),
            smtp_port,
            smtp_username: value_or(env.smtp_username, ""),
            smtp_password: value_or(env.smtp_password, ""),
        }
    }

    /// Whether codes are printed instead of mailed.
    pub fn prints_codes(&self) -> (r: bool)
        ensures
            r == (ascii_lowered(self.email_delivery@) == ascii_lowered("console"@)),
    {
        same_ignoring_ascii_case(self.email_delivery.as_str(), "console")
    }
}

/// The subject of the mail that carries a code.
pub fn code_mail_subject() -> (r: &'static str)
    ensures
        r@ == "Schedule Manager 邮箱验证码"@,
{
    "Schedule Manager 邮箱验证码"
}

/// The text of the mail that carries a code.
pub fn code_mail_body(code: &str) -> (r: String)
    ensures
        r@ == "你的验证码是："@ + code@
            + "\n\n验证码 10 分钟内有效。若非本人操作，请忽略此邮件。"@,
{
    let mut r = "你的验证码是：".to_owned();
    r.append(code);
    r.append("\n\n验证码 10 分钟内有效。若非本人操作，请忽略此邮件。");
    r
}

/// A text with a mail address's form has something before its first `@`, and after it a domain with
/// a dot that does not end in one; it takes 254 bytes at most. Every such text is accepted.
pub proof fn an_address_has_a_name_and_a_domain(name: Seq<char>, domain: Seq<char>)
    requires
        forall|i: int| 0 <= i < name.len() ==> #[trigger] name[i] != '@',
    ensures
        valid_email(name + seq!['@'] + domain) <==> {
            &&& encode_utf8(name + seq!['@'] + domain).len() <= 254
            &&& name.len() > 0
            &&& exists|i: int| 0 <= i < domain.len() && #[trigger] domain[i] == '.'
            &&& domain[domain.len() - 1] != '.'
        },
        !valid_email(name),
{
    a_text_is_split_at_its_first_mark(name, '@', domain);
    reveal_strlit(".");
    assert("."@ =~= seq!['.']);
    if has_part(domain, "."@) {
        let i = choose|i: int|
            0 <= i && i + 1 <= domain.len() && #[trigger] domain.subrange(i, i + 1) == "."@;
        assert(domain.subrange(i, i + 1)[0] == '.');
        assert(domain[i] == '.');
    }
    if exists|i: int| 0 <= i < domain.len() && #[trigger] domain[i] == '.' {
        let i = choose|i: int| 0 <= i < domain.len() && #[trigger] domain[i] == '.';
        assert(domain.subrange(i, i + "."@.len()) =~= "."@);
    }
}

/// A password has 8 to 128 characters.
pub proof fn a_password_has_its_length(password: Seq<char>)
    ensures
        valid_password(password) <==> 7 < password.len() < 129,
{
}

/// A verification code has six digits, and what they write is its number.
pub proof fn a_code_has_six_digits(n: nat)
    requires
        n < 1_000_000,
    ensures
        code_text(n).len() == 6,
        forall|i: int| 0 <= i < 6 ==> '0' <= #[trigger] code_text(n)[i] <= '9',
        digits_value(code_text(n), 10) == n,
{
    lemma_code_length(n);
    lemma_decimal(n);
    leading_zeros_do_not_count(decimal(n), 6);
    assert forall|i: int| 0 <= i < 6 implies '0' <= #[trigger] code_text(n)[i] <= '9' by {
        lemma_decimal_digits(n);
        let zeros = 6 - decimal(n).len();
        if i >= zeros {
            assert(code_text(n)[i] == decimal(n)[i - zeros]);
        }
    }
}

/// A number below a million has one to six digits.
proof fn lemma_code_length(n: nat)
    requires
        n < 1_000_000,
    ensures
        1 <= decimal(n).len() <= 6,
{
    reveal_with_fuel(decimal, 6);
}

/// The digits of a number are the characters `0` to `9`.
proof fn lemma_decimal_digits(n: nat)
    ensures
        forall|i: int| 0 <= i < decimal(n).len() ==> '0' <= #[trigger] decimal(n)[i] <= '9',
    decreases n,
{
    let s = decimal(n);
    if n >= 10 {
        lemma_decimal_digits(n / 10);
        assert forall|i: int| 0 <= i < s.len() implies '0' <= #[trigger] s[i] <= '9' by {
            if i < s.len() - 1 {
                assert(s[i] == decimal(n / 10)[i]);
            }
        }
    }
}

} // verus!
