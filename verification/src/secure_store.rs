//! The credential file: protected bytes, written as base64.

use crate::text;
use crate::text::{join2, join3, trim_text};
use base64::Engine;
use vstd::prelude::*;

verus! {

#[derive(Debug)]
pub enum StoreError {
    /// An I/O error, by its debug text.
    Io(String),
    InvalidData,
    Platform(String),
}

pub enum StoreErrorModel {
    Io(Seq<char>),
    InvalidData,
    Platform(Seq<char>),
}

impl View for StoreError {
    type V = StoreErrorModel;

    open spec fn view(&self) -> StoreErrorModel {
        match *self {
            StoreError::Io(s) => StoreErrorModel::Io(s@),
            StoreError::InvalidData => StoreErrorModel::InvalidData,
            StoreError::Platform(s) => StoreErrorModel::Platform(s@),
        }
    }
}

/// What the credential file gave.
#[derive(Debug)]
pub enum StoredFile {
    Missing,
    /// The file could not be read; the debug text of the error.
    Unreadable(String),
    Text(String),
}

// ---------------------------------------------------------------------------
// Base64
// ---------------------------------------------------------------------------

/// The character for six bits in the standard alphabet.
pub open spec fn base64_digit(n: int) -> char {
    if n < 26 {
        (0x41 + n) as char
    } else if n < 52 {
        (0x47 + n) as char
    } else if n < 62 {
        (n - 4) as char
    } else if n == 62 {
        '+'
    } else {
        '/'
    }
}

/// Bytes in base64 with the standard alphabet and padding: three bytes become
/// four characters, one or two left over are padded with `=`.
pub open spec fn base64_text(b: Seq<u8>) -> Seq<char>
    decreases b.len(),
{
    if b.len() == 0 {
        Seq::empty()
    } else if b.len() == 1 {
        seq![base64_digit(b[0] as int / 4), base64_digit(b[0] as int % 4 * 16), '=', '=']
    } else if b.len() == 2 {
        seq![
            base64_digit(b[0] as int / 4),
            base64_digit(b[0] as int % 4 * 16 + b[1] as int / 16),
            base64_digit(b[1] as int % 16 * 4),
            '=',
        ]
    } else {
        seq![
            base64_digit(b[0] as int / 4),
            base64_digit(b[0] as int % 4 * 16 + b[1] as int / 16),
            base64_digit(b[1] as int % 16 * 4 + b[2] as int / 64),
            base64_digit(b[2] as int % 64),
        ] + base64_text(b.skip(3))
    }
}

/// `base64::engine::general_purpose::STANDARD.encode`.
#[verifier::external_body]
fn encode_base64(bytes: &Vec<u8>) -> (r: String)
    ensures
        r@ == base64_text(bytes@),
{
    base64::engine::general_purpose::STANDARD.encode(bytes)
}

/// `base64::engine::general_purpose::STANDARD.decode`: the bytes whose encoding
/// the text is. The engine asks for the canonical form (exact padding, no
/// stray bits, no other characters), so a text that is no encoding is refused.
#[verifier::external_body]
fn decode_base64(value: &str) -> (r: Option<Vec<u8>>)
    ensures
        r matches Some(bytes) ==> base64_text(bytes@) == value@,
        r is None ==> forall|b: Seq<u8>| #[trigger] base64_text(b) != value@,
{
    base64::engine::general_purpose::STANDARD.decode(value).ok()
}

proof fn lemma_digit(m: int, n: int)
    requires
        0 <= m < 64,
        0 <= n < 64,
        base64_digit(m) == base64_digit(n),
    ensures
        m == n,
{
}

proof fn lemma_digit_range(n: int)
    requires
        0 <= n < 64,
    ensures
        base64_digit(n) != '=',
        !text::is_white(base64_digit(n)),
{
}

/// Different bytes have different encodings.
pub proof fn base64_is_injective(a: Seq<u8>, b: Seq<u8>)
    requires
        base64_text(a) == base64_text(b),
    ensures
        a == b,
    decreases a.len(),
{
    let x = base64_text(a);
    let y = base64_text(b);
    if a.len() == 0 || b.len() == 0 {
        assert(a.len() == 0 <==> x.len() == 0);
        assert(b.len() == 0 <==> y.len() == 0);
        assert(a =~= b);
    } else {
        lemma_first_group(a);
        lemma_first_group(b);
        let p = if a.len() >= 3 {
            3
        } else {
            a.len() as int
        };
        let q = if b.len() >= 3 {
            3
        } else {
            b.len() as int
        };
        assert(p == q);
        lemma_digit(a[0] as int / 4, b[0] as int / 4);
        if p == 1 {
            lemma_digit(a[0] as int % 4 * 16, b[0] as int % 4 * 16);
            assert(a =~= b);
        } else {
            lemma_digit(
                a[0] as int % 4 * 16 + a[1] as int / 16,
                b[0] as int % 4 * 16 + b[1] as int / 16,
            );
            if p == 2 {
                lemma_digit(a[1] as int % 16 * 4, b[1] as int % 16 * 4);
                assert(a =~= b);
            } else {
                lemma_digit(
                    a[1] as int % 16 * 4 + a[2] as int / 64,
                    b[1] as int % 16 * 4 + b[2] as int / 64,
                );
                lemma_digit(a[2] as int % 64, b[2] as int % 64);
                assert(x.skip(4) =~= base64_text(a.skip(3)));
                assert(y.skip(4) =~= base64_text(b.skip(3)));
                base64_is_injective(a.skip(3), b.skip(3));
                assert(a =~= a.take(3) + a.skip(3));
                assert(b =~= b.take(3) + b.skip(3));
                assert(a.take(3) =~= b.take(3));
            }
        }
    }
}

/// The first four characters tell how many bytes they stand for.
proof fn lemma_first_group(b: Seq<u8>)
    requires
        b.len() > 0,
    ensures
        ({
            let s = base64_text(b);
            &&& s.len() >= 4
            &&& b.len() == 1 ==> s.len() == 4 && s[2] == '=' && s[3] == '='
            &&& b.len() == 2 ==> s.len() == 4 && s[2] != '=' && s[3] == '='
            &&& b.len() >= 3 ==> s[2] != '=' && s[3] != '='
            &&& s[0] == base64_digit(b[0] as int / 4)
            &&& b.len() >= 2 ==> s[1] == base64_digit(b[0] as int % 4 * 16 + b[1] as int / 16)
            &&& b.len() == 1 ==> s[1] == base64_digit(b[0] as int % 4 * 16)
            &&& b.len() == 2 ==> s[2] == base64_digit(b[1] as int % 16 * 4)
            &&& b.len() >= 3 ==> s[2] == base64_digit(b[1] as int % 16 * 4 + b[2] as int / 64)
            &&& b.len() >= 3 ==> s[3] == base64_digit(b[2] as int % 64)
            &&& b.len() >= 3 ==> s.skip(4) == base64_text(b.skip(3))
        }),
{
    let s = base64_text(b);
    if b.len() == 2 {
        lemma_digit_range(b[1] as int % 16 * 4);
    }
    if b.len() >= 3 {
        lemma_digit_range(b[1] as int % 16 * 4 + b[2] as int / 64);
        lemma_digit_range(b[2] as int % 64);
        assert(s.skip(4) =~= base64_text(b.skip(3)));
    }
}

proof fn lemma_no_white(b: Seq<u8>, k: int)
    requires
        0 <= k < base64_text(b).len(),
    ensures
        !text::is_white(base64_text(b)[k]),
    decreases b.len(),
{
    let s = base64_text(b);
    if b.len() == 1 {
        lemma_digit_range(b[0] as int / 4);
        lemma_digit_range(b[0] as int % 4 * 16);
    } else if b.len() == 2 {
        lemma_digit_range(b[0] as int / 4);
        lemma_digit_range(b[0] as int % 4 * 16 + b[1] as int / 16);
        lemma_digit_range(b[1] as int % 16 * 4);
    } else if b.len() >= 3 {
        lemma_digit_range(b[0] as int / 4);
        lemma_digit_range(b[0] as int % 4 * 16 + b[1] as int / 16);
        lemma_digit_range(b[1] as int % 16 * 4 + b[2] as int / 64);
        lemma_digit_range(b[2] as int % 64);
        if k >= 4 {
            lemma_no_white(b.skip(3), k - 4);
        }
    }
}

// ---------------------------------------------------------------------------
// Saving and loading
// ---------------------------------------------------------------------------

/// The text of the credential file for the protected bytes.
pub fn save(protected: &Vec<u8>) -> (content: String)
    ensures
        content@ == base64_text(protected@),
{
    encode_base64(protected)
}

pub open spec fn load_result(r: Result<Option<Vec<u8>>, StoreError>) -> Result<
    Option<Seq<u8>>,
    StoreErrorModel,
> {
    match r {
        Ok(Some(bytes)) => Ok(Some(bytes@)),
        Ok(None) => Ok(None),
        Err(error) => Err(error@),
    }
}

/// `r` is what the file holds: nothing where it is missing, the bytes whose
/// encoding it is, or an error.
pub open spec fn loaded(file: StoredFile, r: Result<Option<Seq<u8>>, StoreErrorModel>) -> bool {
    match file {
        StoredFile::Missing => r == Ok::<Option<Seq<u8>>, StoreErrorModel>(None),
        StoredFile::Unreadable(error) => r == Err::<Option<Seq<u8>>, StoreErrorModel>(
            StoreErrorModel::Io(error@),
        ),
        StoredFile::Text(content) => match r {
            Ok(Some(bytes)) => base64_text(bytes) == text::trim(content@),
            Ok(None) => false,
            Err(error) => error is InvalidData && forall|b: Seq<u8>| #[trigger]
                base64_text(b) != text::trim(content@),
        },
    }
}

/// The protected bytes of the credential file.
pub fn load(file: StoredFile) -> (r: Result<Option<Vec<u8>>, StoreError>)
    ensures
        loaded(file, load_result(r)),
{
    match file {
        StoredFile::Missing => Ok(None),
        StoredFile::Unreadable(error) => Err(StoreError::Io(error)),
        StoredFile::Text(content) => match decode_base64(&trim_text(&content)) {
            Some(bytes) => Ok(Some(bytes)),
            None => Err(StoreError::InvalidData),
        },
    }
}

/// What was saved is loaded, whatever the bytes; so it is with white space
/// around it in the file.
pub proof fn saved_bytes_are_loaded(
    bytes: Seq<u8>,
    file: StoredFile,
    r: Result<Option<Seq<u8>>, StoreErrorModel>,
)
    requires
        file matches StoredFile::Text(content) && (content@ == base64_text(bytes) || text::trim(
            content@,
        ) == base64_text(bytes)),
        loaded(file, r),
    ensures
        r == Ok::<Option<Seq<u8>>, StoreErrorModel>(Some(bytes)),
{
    let s = base64_text(bytes);
    if s.len() > 0 {
        lemma_no_white(bytes, 0);
        lemma_no_white(bytes, s.len() - 1);
    }
    text::lemma_trim_nothing(s, text::white());
    match r {
        Ok(Some(found)) => base64_is_injective(found, bytes),
        _ => {},
    }
}

// ---------------------------------------------------------------------------
// Messages
// ---------------------------------------------------------------------------

/// A text as `{:?}` writes it.
pub uninterp spec fn debug_text(s: Seq<char>) -> Seq<char>;

/// `format!("{:?}", ..)` of a text: the text in quotation marks, with escapes.
/// The result depends on the text alone; which characters are escaped is std's
/// matter.
#[verifier::external_body]
fn write_debug(value: &str) -> (r: String)
    ensures
        r@ == debug_text(value@),
{
    format!("{:?}", value)
}

/// An error of the store as its debug text has it.
pub open spec fn store_error_text(error: StoreErrorModel) -> Seq<char> {
    match error {
        StoreErrorModel::Io(s) => "Io("@ + s + ")"@,
        StoreErrorModel::InvalidData => "InvalidData"@,
        StoreErrorModel::Platform(s) => "Platform("@ + debug_text(s) + ")"@,
    }
}

pub open spec fn store_message(error: StoreErrorModel) -> Seq<char> {
    "credential store: "@ + store_error_text(error)
}

impl StoreError {
    /// The message that users see.
    pub fn message(&self) -> (r: String)
        ensures
            r@ == store_message(self@),
    {
        let inner = match self {
            StoreError::Io(s) => join3("Io(", s, ")"),
            StoreError::InvalidData => "InvalidData".to_string(),
            StoreError::Platform(s) => join3("Platform(", &write_debug(s), ")"),
        };
        join2("credential store: ", &inner)
    }
}

/// A missing file holds nothing, one that cannot be read gives its error, and
/// one that is no encoding is invalid.
pub proof fn unusable_files_are_told_apart(
    file: StoredFile,
    r: Result<Option<Seq<u8>>, StoreErrorModel>,
    error: String,
    content: String,
)
    requires
        loaded(file, r),
    ensures
        file is Missing ==> (r matches Ok(found) && found is None),
        file == StoredFile::Unreadable(error) ==> (r matches Err(e) && e == StoreErrorModel::Io(
            error@,
        )),
        file == StoredFile::Text(content) && (forall|b: Seq<u8>|
            #[trigger] base64_text(b) != text::trim(content@)) ==> (r matches Err(e)
            && e is InvalidData),
        file == StoredFile::Text(content) ==> !(r matches Ok(found) && found is None),
{
}

/// The messages of the store name what went wrong.
pub proof fn store_errors_are_named(error: StoreError)
    ensures
        match error {
            StoreError::Io(s) => store_message(error@) == "credential store: "@ + ("Io("@ + s@
                + ")"@),
            StoreError::InvalidData => store_message(error@) == "credential store: "@
                + "InvalidData"@,
            StoreError::Platform(s) => store_message(error@) == "credential store: "@ + (
            "Platform("@ + debug_text(s@) + ")"@),
        },
{
}

} // verus!
