//! Arrays in the file format of numpy.
use npyz::WriterBuilder;
use vstd::bytes::spec_u32_to_le_bytes;
use vstd::prelude::*;
use vstd::slice::slice_subrange;
use vstd::string::*;

use crate::data::format::array_fault;
use crate::data::format::encode_events;
use crate::data::format::encode_metadata;
use crate::data::format::event_at;
use crate::data::format::event_bytes;
use crate::data::format::latency_at;
use crate::data::format::metadata_at;
use crate::data::format::metadata_dtype;
use crate::data::format::metadata_rows;
use crate::data::format::order_latency_rows;
use crate::data::format::stored_event_dtype;
use crate::data::format::stored_event_rows;
use crate::data::format::stored_events_are_read_back;
use crate::data::format::ArrayHeader;
use crate::data::format::FormatError;
use crate::data::format::FormatFault;
use crate::data::format::HeaderView;
use crate::data::format::MarketDataMetadata;
use crate::data::format::StoredEvent;
use crate::decimal::pow10;
use crate::models::latency::OrderLatencyRow;
use crate::text::number_text;

verus! {

/// What was seen of the text of a header so far.
pub struct Scan {
    /// The quote that ends the string that the text is in, or zero outside strings.
    pub quote: u8,
    /// The byte in front.
    pub last: u8,
    /// How many brackets are open.
    pub depth: int,
    /// How many brackets were open at most.
    pub deepest: int,
    /// The number of decimal digits outside strings.
    pub digits: nat,
    /// The number of hexadecimal digits outside strings.
    pub hex_digits: nat,
    /// Whether there is a number in another base than ten: a zero with one of the letters `b`, `o`
    /// and `x` behind it.
    pub other_base: bool,
    /// Whether there is a backslash, or two quotes in a row, by which a string is more than what
    /// stands between two quotes.
    pub odd: bool,
}

/// Whether a byte is a quote.
pub open spec fn is_quote(byte: u8) -> bool {
    byte == 39 || byte == 34
}

/// Whether a byte is a hexadecimal digit.
pub open spec fn is_hex_digit(byte: u8) -> bool {
    48 <= byte <= 57 || 65 <= byte <= 70 || 97 <= byte <= 102
}

/// Whether a byte is one of the letters by which a base is told.
pub open spec fn is_base_letter(byte: u8) -> bool {
    byte == 66 || byte == 98 || byte == 79 || byte == 111 || byte == 88 || byte == 120
}

/// Whether a byte is an opening bracket.
pub open spec fn is_opening(byte: u8) -> bool {
    byte == 40 || byte == 91 || byte == 123
}

/// Whether a byte is a closing bracket.
pub open spec fn is_closing(byte: u8) -> bool {
    byte == 41 || byte == 93 || byte == 125
}

impl Scan {
    /// Before the text.
    pub open spec fn start() -> Scan {
        Scan {
            quote: 0,
            last: 0,
            depth: 0,
            deepest: 0,
            digits: 0,
            hex_digits: 0,
            other_base: false,
            odd: false,
        }
    }

    /// After one more byte.
    pub open spec fn next(self, byte: u8) -> Scan {
        let odd = self.odd || byte == 92 || (is_quote(byte) && byte == self.last);
        if self.quote != 0 {
            Scan {
                quote: if byte == self.quote {
                    0
                } else {
                    self.quote
                },
                last: byte,
                odd,
                ..self
            }
        } else {
            let depth = if is_opening(byte) {
                self.depth + 1
            } else if is_closing(byte) {
                self.depth - 1
            } else {
                self.depth
            };
            Scan {
                quote: if is_quote(byte) {
                    byte
                } else {
                    0
                },
                last: byte,
                depth,
                deepest: if depth > self.deepest {
                    depth
                } else {
                    self.deepest
                },
                digits: self.digits + if 48 <= byte <= 57 {
                    1nat
                } else {
                    0nat
                },
                hex_digits: self.hex_digits + if is_hex_digit(byte) {
                    1nat
                } else {
                    0nat
                },
                other_base: self.other_base || (self.last == 48 && is_base_letter(byte)),
                odd,
            }
        }
    }
}

/// What was seen after the first `n` bytes of a text.
pub open spec fn scanned(scan: Scan, text: Seq<u8>, n: nat) -> Scan
    decreases n,
{
    if n == 0 {
        scan
    } else {
        scanned(scan, text, (n - 1) as nat).next(text[n - 1])
    }
}

/// The number of brackets, one inside the other, up to which the text of a header is read.
pub const MAX_DEPTH: i64 = 10;

/// The number of decimal digits outside strings up to which the text of a header is read. Numbers
/// with no more digits have a product of 64 bits.
pub const MAX_DIGITS: u64 = 19;

/// The number of hexadecimal digits outside strings up to which the text of a header with numbers in
/// another base than ten is read. Numbers with no more digits have a product of 64 bits.
pub const MAX_HEX_DIGITS: u64 = 15;

/// Whether the text of a header is plain: strings stand between two quotes, brackets nest little,
/// and the numbers together have few digits.
pub open spec fn is_plain(text: Seq<u8>) -> bool {
    let scan = scanned(Scan::start(), text, text.len());
    &&& !scan.odd
    &&& scan.deepest <= MAX_DEPTH
    &&& if scan.other_base {
        scan.hex_digits <= MAX_HEX_DIGITS
    } else {
        scan.digits <= MAX_DIGITS
    }
}

/// Whether bytes begin as an array of a version that is known does.
pub open spec fn begins_as_array(bytes: Seq<u8>) -> bool {
    &&& bytes.len() >= 12
    &&& bytes[0] == 0x93
    &&& bytes[1] == 78
    &&& bytes[2] == 85
    &&& bytes[3] == 77
    &&& bytes[4] == 80
    &&& bytes[5] == 89
    &&& 1 <= bytes[6] <= 3
    &&& bytes[7] == 0
}

/// Where the text of a header begins.
pub open spec fn text_start(bytes: Seq<u8>) -> int {
    if bytes[6] == 1 {
        10
    } else {
        12
    }
}

/// Where the text of a header ends.
pub open spec fn text_end(bytes: Seq<u8>) -> int {
    if bytes[6] == 1 {
        10 + bytes[8] + 256 * bytes[9]
    } else {
        12 + bytes[8] + 256 * bytes[9] + 65536 * bytes[10] + 16777216 * bytes[11]
    }
}

/// The text of the header of an array.
pub open spec fn header_text(bytes: Seq<u8>) -> Seq<u8> {
    bytes.subrange(text_start(bytes), text_end(bytes))
}

/// Whether the header of an array can be handed to the parser: it is all there, and plain.
pub open spec fn has_plain_header(bytes: Seq<u8>) -> bool {
    begins_as_array(bytes) ==> text_end(bytes) <= bytes.len() && is_plain(header_text(bytes))
}

/// What `NpyHeader::from_reader` reads from bytes: the number of bytes that the header takes, the
/// shape, and the type of the rows as `DType::descr` gives it. None where it reports an error.
pub uninterp spec fn outside_npy_header(bytes: Seq<u8>) -> Option<(u64, Seq<u64>, Seq<char>)>;

/// Calls `npyz::NpyHeader::from_reader` on bytes, and `DType::descr` on the type that it read. The
/// result is named, not stated, but for this: the header takes no more than the bytes that there
/// are.
///
/// The parser of the text tries a bracket up to three times, and so takes time that grows with the
/// nesting as a power of three. It panics where a number that it adds is too large for a float, and
/// the product of the lengths of the dimensions is taken without a test. Plain headers leave all of
/// this out: they nest little, and their numbers together have no more digits than 64 bits hold.
#[verifier::external_body]
fn npy_header(bytes: &[u8]) -> (r: Option<ArrayHeader>)
    requires
        has_plain_header(bytes@),
    ensures
        match r {
            Some(header) => outside_npy_header(bytes@) == Some(
                (header.size, header.shape@, header.dtype@),
            ),
            None => outside_npy_header(bytes@) is None,
        },
        r matches Some(header) ==> header.size <= bytes@.len(),
{
    let mut reader = std::io::Cursor::new(bytes);
    let header = npyz::NpyHeader::from_reader(&mut reader).ok()?;
    Some(
        ArrayHeader {
            size: reader.position(),
            shape: header.shape().to_vec(),
            dtype: header.dtype().descr(),
        },
    )
}

/// Whether a text is one of the types whose arrays are written.
pub open spec fn is_row_type(dtype: Seq<char>) -> bool {
    ||| dtype
        == "[('ev', '<u8'), ('exch_ts', '<i8'), ('local_ts', '<i8'), ('px', '<i8'), ('qty', '<i8')]"@
    ||| dtype == "[('price_scale', '<u4'), ('size_scale', '<u4')]"@
    ||| dtype == "[('req_ts', '<i8'), ('exch_ts', '<i8'), ('resp_ts', '<i8')]"@
}

/// A type in the form in which headers give it: with a comma behind the last field too.
pub open spec fn descr_of(dtype: Seq<char>) -> Seq<char> {
    dtype.drop_last() + ", ]"@
}

/// The bytes of characters that are ASCII.
pub open spec fn ascii(text: Seq<char>) -> Seq<u8> {
    Seq::new(text.len(), |i: int| text[i] as u8)
}

/// What the header of an array of one dimension says.
pub open spec fn shape_text(descr: Seq<char>, rows: u64) -> Seq<char> {
    "{'descr': "@ + descr + ", 'fortran_order': False, 'shape': ("@ + number_text(rows as nat)
        + ", ), }"@
}

/// The text of the header of an array of one dimension: with spaces and a line feed behind it, by
/// which the header takes a multiple of 64 bytes.
pub open spec fn padded_text(descr: Seq<char>, rows: u64) -> Seq<u8> {
    let text = ascii(shape_text(descr, rows));
    text + Seq::new((63 - (text.len() + 10) % 64) as nat, |i: int| 32u8) + seq![10u8]
}

/// The header of an array of one dimension.
pub open spec fn header_bytes(descr: Seq<char>, rows: u64) -> Seq<u8> {
    let text = padded_text(descr, rows);
    seq![
        0x93u8,
        78u8,
        85u8,
        77u8,
        80u8,
        89u8,
        1u8,
        0u8,
        (text.len() % 256) as u8,
        (text.len() / 256) as u8,
    ] + text
}

/// Calls `npyz::WriterBuilder::write_header_only` for one of the types whose arrays are written, as
/// `npyz::DType::parse` reads it, one dimension of `rows` rows, and a vector to write to. It writes
/// the version, the length of the text, and the text. What `npyz::NpyHeader::from_reader` reads from
/// such a header is the type, the shape and the number of bytes of the header, whatever stands
/// behind it.
#[verifier::external_body]
fn array_header(dtype: &str, rows: u64) -> (r: Option<Vec<u8>>)
    requires
        is_row_type(dtype@),
    ensures
        r is Some,
        r->0@ == header_bytes(descr_of(dtype@), rows),
        forall|payload: Seq<u8>| #[trigger]
            outside_npy_header(r->0@ + payload) == Some(
                (r->0@.len() as u64, seq![rows], descr_of(dtype@)),
            ),
{
    let dtype = npyz::DType::parse(dtype).ok()?;
    npyz::WriteOptions::new_header_only()
        .dtype(dtype)
        .shape(&[rows])
        .writer(Vec::new())
        .write_header_only()
        .ok()
}

/// A text is seen as its two parts are, one after the other.
proof fn lemma_scanned_joined(scan: Scan, a: Seq<u8>, b: Seq<u8>, n: nat)
    requires
        n <= a.len() + b.len(),
    ensures
        n <= a.len() ==> scanned(scan, a + b, n) == scanned(scan, a, n),
        n >= a.len() ==> scanned(scan, a + b, n) == scanned(
            scanned(scan, a, a.len()),
            b,
            (n - a.len()) as nat,
        ),
    decreases n,
{
    if n > 0 {
        lemma_scanned_joined(scan, a, b, (n - 1) as nat);
    }
}

/// Digits outside strings are counted.
proof fn lemma_scanned_digits(scan: Scan, text: Seq<u8>, n: nat)
    requires
        scan.quote == 0,
        !is_quote(scan.last),
        n <= text.len(),
        forall|i: int| 0 <= i < text.len() ==> 48 <= #[trigger] text[i] <= 57,
    ensures
        ({
            let after = scanned(scan, text, n);
            &&& after.quote == 0
            &&& n > 0 ==> after.last == text[n - 1]
            &&& !is_quote(after.last)
            &&& after.depth == scan.depth
            &&& after.deepest == (if n > 0 && scan.depth > scan.deepest {
                scan.depth
            } else {
                scan.deepest
            })
            &&& after.digits == scan.digits + n
            &&& after.other_base == scan.other_base
            &&& after.odd == scan.odd
        }),
    decreases n,
{
    if n > 0 {
        lemma_scanned_digits(scan, text, (n - 1) as nat);
    }
}

/// Spaces and line feeds outside strings change nothing.
proof fn lemma_scanned_blanks(scan: Scan, text: Seq<u8>, n: nat)
    requires
        scan.quote == 0,
        scan.depth <= scan.deepest,
        n <= text.len(),
        forall|i: int| 0 <= i < text.len() ==> #[trigger] text[i] == 32 || text[i] == 10,
    ensures
        scanned(scan, text, n) == (Scan { last: scanned(scan, text, n).last, ..scan }),
    decreases n,
{
    if n > 0 {
        lemma_scanned_blanks(scan, text, (n - 1) as nat);
    }
}

/// What is seen in front of the type in the text of a header.
pub open spec fn before_type() -> Scan {
    Scan { last: 32, depth: 1, deepest: 1, ..Scan::start() }
}

/// What is seen behind the type in the text of a header.
pub open spec fn behind_type() -> Scan {
    Scan { last: 93, depth: 1, deepest: 3, ..Scan::start() }
}

/// What is seen in front of the number of rows in the text of a header.
pub open spec fn before_rows() -> Scan {
    Scan { last: 40, depth: 2, deepest: 3, hex_digits: 3, ..Scan::start() }
}

/// What is seen in the text of a header around the type and the number of rows.
#[verifier::rlimit(50)]
proof fn lemma_scanned_pieces(number: Scan)
    requires
        number.quote == 0,
        48 <= number.last <= 57,
        number.depth == 2,
        number.deepest == 3,
    ensures
        ascii("{'descr': "@).len() == 10,
        scanned(Scan::start(), ascii("{'descr': "@), 10) == before_type(),
        ascii(", 'fortran_order': False, 'shape': ("@).len() == 36,
        scanned(behind_type(), ascii(", 'fortran_order': False, 'shape': ("@), 36) == before_rows(),
        ascii(", ), }"@).len() == 6,
        scanned(number, ascii(", ), }"@), 6) == (Scan { last: 125, depth: 0, ..number }),
{
    reveal_strlit("{'descr': ");
    reveal_strlit(", 'fortran_order': False, 'shape': (");
    reveal_strlit(", ), }");
    reveal_with_fuel(scanned, 38);
}

/// The type of the rows of stored events, as headers give it, nests little and has no number.
#[verifier::rlimit(100)]
#[verifier::spinoff_prover]
proof fn lemma_stored_event_descr()
    ensures
        "[('ev', '<u8'), ('exch_ts', '<i8'), ('local_ts', '<i8'), ('px', '<i8'), ('qty', '<i8'), ]"@
            == descr_of("[('ev', '<u8'), ('exch_ts', '<i8'), ('local_ts', '<i8'), ('px', '<i8'), ('qty', '<i8')]"@),
        ascii("[('ev', '<u8'), ('exch_ts', '<i8'), ('local_ts', '<i8'), ('px', '<i8'), ('qty', '<i8'), ]"@).len() == 89,
        scanned(before_type(), ascii("[('ev', '<u8'), ('exch_ts', '<i8'), ('local_ts', '<i8'), ('px', '<i8'), ('qty', '<i8'), ]"@), 89) == behind_type(),
{
    reveal_strlit("[('ev', '<u8'), ('exch_ts', '<i8'), ('local_ts', '<i8'), ('px', '<i8'), ('qty', '<i8'), ]");
    reveal_strlit("[('ev', '<u8'), ('exch_ts', '<i8'), ('local_ts', '<i8'), ('px', '<i8'), ('qty', '<i8')]");
    reveal_strlit(", ]");
    assert("[('ev', '<u8'), ('exch_ts', '<i8'), ('local_ts', '<i8'), ('px', '<i8'), ('qty', '<i8'), ]"@ =~= descr_of("[('ev', '<u8'), ('exch_ts', '<i8'), ('local_ts', '<i8'), ('px', '<i8'), ('qty', '<i8')]"@));
    reveal_with_fuel(scanned, 91);
}

/// The type of the rows of stored events, in the form in which headers give it.
pub fn stored_event_descr() -> (r: &'static str)
    ensures
        r@ == "[('ev', '<u8'), ('exch_ts', '<i8'), ('local_ts', '<i8'), ('px', '<i8'), ('qty', '<i8'), ]"@,
        r@ == descr_of("[('ev', '<u8'), ('exch_ts', '<i8'), ('local_ts', '<i8'), ('px', '<i8'), ('qty', '<i8')]"@),
{
    proof {
        lemma_stored_event_descr();
    }
    "[('ev', '<u8'), ('exch_ts', '<i8'), ('local_ts', '<i8'), ('px', '<i8'), ('qty', '<i8'), ]"
}

/// The type of the row of metadata, as headers give it, nests little and has no number.
#[verifier::rlimit(100)]
#[verifier::spinoff_prover]
proof fn lemma_metadata_descr()
    ensures
        "[('price_scale', '<u4'), ('size_scale', '<u4'), ]"@
            == descr_of("[('price_scale', '<u4'), ('size_scale', '<u4')]"@),
        ascii("[('price_scale', '<u4'), ('size_scale', '<u4'), ]"@).len() == 49,
        scanned(before_type(), ascii("[('price_scale', '<u4'), ('size_scale', '<u4'), ]"@), 49) == behind_type(),
{
    reveal_strlit("[('price_scale', '<u4'), ('size_scale', '<u4'), ]");
    reveal_strlit("[('price_scale', '<u4'), ('size_scale', '<u4')]");
    reveal_strlit(", ]");
    assert("[('price_scale', '<u4'), ('size_scale', '<u4'), ]"@ =~= descr_of("[('price_scale', '<u4'), ('size_scale', '<u4')]"@));
    reveal_with_fuel(scanned, 51);
}

/// The type of the row of metadata, in the form in which headers give it.
pub fn metadata_descr() -> (r: &'static str)
    ensures
        r@ == "[('price_scale', '<u4'), ('size_scale', '<u4'), ]"@,
        r@ == descr_of("[('price_scale', '<u4'), ('size_scale', '<u4')]"@),
{
    proof {
        lemma_metadata_descr();
    }
    "[('price_scale', '<u4'), ('size_scale', '<u4'), ]"
}

/// The type of the rows of order latencies, as headers give it, nests little and has no number.
#[verifier::rlimit(100)]
#[verifier::spinoff_prover]
proof fn lemma_order_latency_descr()
    ensures
        "[('req_ts', '<i8'), ('exch_ts', '<i8'), ('resp_ts', '<i8'), ]"@
            == descr_of("[('req_ts', '<i8'), ('exch_ts', '<i8'), ('resp_ts', '<i8')]"@),
        ascii("[('req_ts', '<i8'), ('exch_ts', '<i8'), ('resp_ts', '<i8'), ]"@).len() == 61,
        scanned(before_type(), ascii("[('req_ts', '<i8'), ('exch_ts', '<i8'), ('resp_ts', '<i8'), ]"@), 61) == behind_type(),
{
    reveal_strlit("[('req_ts', '<i8'), ('exch_ts', '<i8'), ('resp_ts', '<i8'), ]");
    reveal_strlit("[('req_ts', '<i8'), ('exch_ts', '<i8'), ('resp_ts', '<i8')]");
    reveal_strlit(", ]");
    assert("[('req_ts', '<i8'), ('exch_ts', '<i8'), ('resp_ts', '<i8'), ]"@ =~= descr_of("[('req_ts', '<i8'), ('exch_ts', '<i8'), ('resp_ts', '<i8')]"@));
    reveal_with_fuel(scanned, 63);
}

/// The type of the rows of order latencies, in the form in which headers give it.
pub fn order_latency_descr() -> (r: &'static str)
    ensures
        r@ == "[('req_ts', '<i8'), ('exch_ts', '<i8'), ('resp_ts', '<i8'), ]"@,
        r@ == descr_of("[('req_ts', '<i8'), ('exch_ts', '<i8'), ('resp_ts', '<i8')]"@),
{
    proof {
        lemma_order_latency_descr();
    }
    "[('req_ts', '<i8'), ('exch_ts', '<i8'), ('resp_ts', '<i8'), ]"
}

/// A number below `10^digits` takes no more than so many digits, and only digits.
proof fn lemma_number_text(n: nat, digits: nat)
    requires
        digits >= 1,
        n < pow10(digits as int),
    ensures
        1 <= number_text(n).len() <= digits,
        forall|i: int|
            0 <= i < number_text(n).len() ==> 48 <= #[trigger] number_text(n)[i] as int <= 57,
    decreases n,
{
    if n >= 10 {
        assert(pow10(1) == 10 * pow10(0));
        assert(digits >= 2);
        lemma_number_text(n / 10, (digits - 1) as nat);
    }
}

/// The header of an array that is written is plain, whatever stands behind it.
#[verifier::rlimit(50)]
#[verifier::spinoff_prover]
proof fn lemma_written_header_is_plain(descr: Seq<char>, rows: u64, payload: Seq<u8>)
    requires
        rows < 10_000_000_000_000_000_000,
        ascii(descr).len() <= 95,
        scanned(before_type(), ascii(descr), ascii(descr).len()) == behind_type(),
    ensures
        has_plain_header(header_bytes(descr, rows) + payload),
        begins_as_array(header_bytes(descr, rows) + payload),
        text_end(header_bytes(descr, rows) + payload) == header_bytes(descr, rows).len(),
        header_bytes(descr, rows).len() <= 300,
{
    let number = number_text(rows as nat);
    assert(pow10(19) == 10_000_000_000_000_000_000) by {
        reveal_with_fuel(pow10, 21);
    }
    lemma_number_text(rows as nat, 19);
    let a = ascii("{'descr': "@);
    let b = ascii(descr);
    let c = ascii(", 'fortran_order': False, 'shape': ("@);
    let d = ascii(number);
    let e = ascii(", ), }"@);
    let text = ascii(shape_text(descr, rows));
    assert(text =~= a + b + c + d + e);
    let blanks = Seq::new((63 - (text.len() + 10) % 64) as nat, |i: int| 32u8) + seq![10u8];
    let padded = padded_text(descr, rows);
    assert(padded =~= text + blanks);
    assert forall|i: int| 0 <= i < d.len() implies 48 <= #[trigger] d[i] <= 57 by {
        assert(d[i] == number[i] as u8);
    }
    let start = Scan::start();
    lemma_scanned_digits(before_rows(), d, d.len());
    let rows_seen = scanned(before_rows(), d, d.len());
    lemma_scanned_pieces(rows_seen);
    lemma_scanned_joined(start, a, b, (a + b).len());
    lemma_scanned_joined(start, a + b, c, (a + b + c).len());
    lemma_scanned_joined(start, a + b + c, d, (a + b + c + d).len());
    lemma_scanned_joined(start, a + b + c + d, e, text.len());
    lemma_scanned_joined(start, text, blanks, padded.len());
    let seen = scanned(start, text, text.len());
    assert(seen == (Scan { last: 125, depth: 0, ..rows_seen }));
    lemma_scanned_blanks(seen, blanks, blanks.len());
    assert(is_plain(padded));
    let bytes = header_bytes(descr, rows) + payload;
    assert(padded.len() <= 245);
    assert(bytes[6] == 1);
    assert(bytes[8] == padded.len());
    assert(bytes[9] == 0);
    assert(header_text(bytes) =~= padded);
    assert(padded.len() >= 20);
}

/// What the header of an array says, or why it cannot be read.
pub open spec fn entry_header(entry: Seq<u8>) -> Result<HeaderView, FormatFault> {
    if begins_as_array(entry) && text_end(entry) > entry.len() {
        Err(FormatFault::Truncated)
    } else if begins_as_array(entry) && !is_plain(header_text(entry)) {
        Err(FormatFault::IntricateHeader)
    } else {
        match outside_npy_header(entry) {
            None => Err(FormatFault::BadHeader),
            Some((size, shape, dtype)) => Ok(HeaderView { size, shape, dtype }),
        }
    }
}

/// The bytes behind the header of an array.
pub open spec fn entry_payload(entry: Seq<u8>) -> Seq<u8> {
    entry.skip(entry_header(entry)->Ok_0.size as int)
}

/// The number of rows of an array.
pub open spec fn entry_rows(entry: Seq<u8>) -> nat {
    entry_header(entry)->Ok_0.shape[0] as nat
}

/// Why the rows of an array cannot be read, where they cannot.
pub open spec fn entry_fault(
    entry: Seq<u8>,
    entry_size: u64,
    expected: Seq<char>,
    row_size: nat,
) -> Option<FormatFault> {
    match entry_header(entry) {
        Err(fault) => Some(fault),
        Ok(header) => array_fault(
            header,
            expected,
            row_size,
            entry_payload(entry).len(),
            entry_size,
        ),
    }
}

/// Whether the text of a header is plain.
fn is_plain_text(text: &[u8]) -> (r: bool)
    ensures
        r == is_plain(text@),
{
    let len: usize = text.len();
    let mut quote: u8 = 0;
    let mut last: u8 = 0;
    let mut depth: i128 = 0;
    let mut deepest: i128 = 0;
    let mut digits: u64 = 0;
    let mut hex_digits: u64 = 0;
    let mut other_base: bool = false;
    let mut odd: bool = false;
    let mut i: usize = 0;
    while i < len
        invariant
            len == text@.len(),
            i <= len,
            -i <= depth <= i,
            0 <= deepest <= i,
            digits <= i,
            hex_digits <= i,
            scanned(Scan::start(), text@, i as nat) == (Scan {
                quote,
                last,
                depth: depth as int,
                deepest: deepest as int,
                digits: digits as nat,
                hex_digits: hex_digits as nat,
                other_base,
                odd,
            }),
        decreases len - i,
    {
        let byte: u8 = text[i];
        let is_quote: bool = byte == 39 || byte == 34;
        if byte == 92 || (is_quote && byte == last) {
            odd = true;
        }
        if quote != 0 {
            if byte == quote {
                quote = 0;
            }
        } else {
            if byte == 40 || byte == 91 || byte == 123 {
                depth = depth + 1;
            } else if byte == 41 || byte == 93 || byte == 125 {
                depth = depth - 1;
            }
            if depth > deepest {
                deepest = depth;
            }
            if 48 <= byte && byte <= 57 {
                digits = digits + 1;
                hex_digits = hex_digits + 1;
            } else if (65 <= byte && byte <= 70) || (97 <= byte && byte <= 102) {
                hex_digits = hex_digits + 1;
            }
            if last == 48 && (byte == 66 || byte == 98 || byte == 79 || byte == 111 || byte == 88
                || byte == 120) {
                other_base = true;
            }
            if is_quote {
                quote = byte;
            }
        }
        last = byte;
        i = i + 1;
    }
    !odd && deepest <= MAX_DEPTH as i128 && if other_base {
        hex_digits <= MAX_HEX_DIGITS
    } else {
        digits <= MAX_DIGITS
    }
}

/// Whether bytes begin as an array of a version that is known does.
fn begins(bytes: &[u8]) -> (r: bool)
    ensures
        r == begins_as_array(bytes@),
{
    bytes.len() >= 12 && bytes[0] == 0x93 && bytes[1] == 78 && bytes[2] == 85 && bytes[3] == 77
        && bytes[4] == 80 && bytes[5] == 89 && 1 <= bytes[6] && bytes[6] <= 3 && bytes[7] == 0
}

/// Reads the header of an array.
pub fn read_header(entry: &[u8]) -> (r: Result<ArrayHeader, FormatError>)
    ensures
        match entry_header(entry@) {
            Err(fault) => r is Err && r->Err_0@ == fault,
            Ok(header) => r is Ok && r->Ok_0@ == header && header.size <= entry@.len(),
        },
{
    if begins(entry) {
        let len: usize = entry.len();
        let start: usize = if entry[6] == 1 {
            10
        } else {
            12
        };
        let low: u64 = entry[8] as u64 + 256 * entry[9] as u64;
        let size: u64 = if entry[6] == 1 {
            low
        } else {
            low + 65536 * entry[10] as u64 + 16777216 * entry[11] as u64
        };
        let end: u64 = start as u64 + size;
        if end > len as u64 {
            return Err(FormatError::Truncated);
        }
        if !is_plain_text(slice_subrange(entry, start, end as usize)) {
            return Err(FormatError::IntricateHeader);
        }
    }
    match npy_header(entry) {
        Some(header) => Ok(header),
        None => Err(FormatError::BadHeader),
    }
}

/// Reads the stored events of an array, as it stands in an entry of an archive that says that it has
/// `entry_size` bytes. `expected` is the type that the rows must have, in the form in which headers
/// give it.
pub fn read_array(entry: &[u8], entry_size: u64, expected: &str) -> (r: Result<
    Vec<StoredEvent>,
    FormatError,
>)
    ensures
        match entry_fault(entry@, entry_size, expected@, 40) {
            Some(fault) => r is Err && r->Err_0@ == fault,
            None => r is Ok && r->Ok_0@ == Seq::new(
                entry_rows(entry@),
                |i: int| event_at(entry_payload(entry@), i),
            ),
        },
{
    match read_header(entry) {
        Err(error) => Err(error),
        Ok(header) => {
            let payload: &[u8] = slice_subrange(entry, header.size as usize, entry.len());
            assert(payload@ =~= entry_payload(entry@));
            stored_event_rows(&header, expected, payload, entry_size)
        },
    }
}

/// Reads the metadata of an array, as it stands in an entry of an archive.
pub fn read_metadata_array(entry: &[u8], entry_size: u64, expected: &str) -> (r: Result<
    Vec<MarketDataMetadata>,
    FormatError,
>)
    ensures
        match entry_fault(entry@, entry_size, expected@, 8) {
            Some(fault) => r is Err && r->Err_0@ == fault,
            None => r is Ok && r->Ok_0@ == Seq::new(
                entry_rows(entry@),
                |i: int| metadata_at(entry_payload(entry@), i),
            ),
        },
{
    match read_header(entry) {
        Err(error) => Err(error),
        Ok(header) => {
            let payload: &[u8] = slice_subrange(entry, header.size as usize, entry.len());
            assert(payload@ =~= entry_payload(entry@));
            metadata_rows(&header, expected, payload, entry_size)
        },
    }
}

/// Reads the order latencies of an array, as it stands in an entry of an archive.
pub fn read_latency_array(entry: &[u8], entry_size: u64, expected: &str) -> (r: Result<
    Vec<OrderLatencyRow>,
    FormatError,
>)
    ensures
        match entry_fault(entry@, entry_size, expected@, 24) {
            Some(fault) => r is Err && r->Err_0@ == fault,
            None => r is Ok && r->Ok_0@ == Seq::new(
                entry_rows(entry@),
                |i: int| latency_at(entry_payload(entry@), i),
            ),
        },
{
    match read_header(entry) {
        Err(error) => Err(error),
        Ok(header) => {
            let payload: &[u8] = slice_subrange(entry, header.size as usize, entry.len());
            assert(payload@ =~= entry_payload(entry@));
            order_latency_rows(&header, expected, payload, entry_size)
        },
    }
}

/// Rows behind a header are read as they were written, where the header says what they are.
proof fn lemma_rows_behind_header(
    descr: Seq<char>,
    rows: u64,
    payload: Seq<u8>,
    row_size: nat,
)
    requires
        rows < 10_000_000_000_000_000_000,
        ascii(descr).len() <= 95,
        scanned(before_type(), ascii(descr), ascii(descr).len()) == behind_type(),
        outside_npy_header(header_bytes(descr, rows) + payload) == Some(
            (header_bytes(descr, rows).len() as u64, seq![rows], descr),
        ),
        payload.len() == rows * row_size,
        header_bytes(descr, rows).len() + payload.len() <= u64::MAX,
    ensures
        entry_fault(
            header_bytes(descr, rows) + payload,
            (header_bytes(descr, rows) + payload).len() as u64,
            descr,
            row_size,
        ) is None,
        entry_payload(header_bytes(descr, rows) + payload) == payload,
        entry_rows(header_bytes(descr, rows) + payload) == rows,
{
    let entry = header_bytes(descr, rows) + payload;
    lemma_written_header_is_plain(descr, rows, payload);
    assert(entry_payload(entry) =~= payload);
    assert(payload.len() == rows * row_size);
}

/// The array of stored events, as it stands in an archive. They are read back from it.
pub fn write_array(events: &Vec<StoredEvent>) -> (r: Vec<u8>)
    ensures
        r@ == header_bytes(
            "[('ev', '<u8'), ('exch_ts', '<i8'), ('local_ts', '<i8'), ('px', '<i8'), ('qty', '<i8'), ]"@,
            events@.len() as u64,
        ) + event_bytes(events@),
        entry_fault(
            r@,
            r@.len() as u64,
            "[('ev', '<u8'), ('exch_ts', '<i8'), ('local_ts', '<i8'), ('px', '<i8'), ('qty', '<i8'), ]"@,
            40,
        ) is None,
        Seq::new(entry_rows(r@), |i: int| event_at(entry_payload(r@), i)) == events@,
{
    let rows: usize = events.len();
    let mut bytes: Vec<u8> = match array_header(stored_event_dtype(), rows as u64) {
        Some(header) => header,
        None => Vec::new(),
    };
    let mut encoded: Vec<u8> = encode_events(events);
    let ghost header = bytes@;
    bytes.append(&mut encoded);
    let len: usize = bytes.len();
    proof {
        let payload = event_bytes(events@);
        lemma_stored_event_descr();
        assert(bytes@ == header + payload);
        assert(header.len() + payload.len() == len);
        assert(rows < 10_000_000_000_000_000_000);
        lemma_rows_behind_header(
            "[('ev', '<u8'), ('exch_ts', '<i8'), ('local_ts', '<i8'), ('px', '<i8'), ('qty', '<i8'), ]"@,
            rows as u64,
            payload,
            40,
        );
        stored_events_are_read_back(events@);
        assert(Seq::new(entry_rows(bytes@), |i: int| event_at(entry_payload(bytes@), i))
            =~= events@);
    }
    bytes
}

/// The array of metadata, as it stands in an archive. It is read back from it.
pub fn write_metadata(metadata: &MarketDataMetadata) -> (r: Vec<u8>)
    ensures
        r@ == header_bytes("[('price_scale', '<u4'), ('size_scale', '<u4'), ]"@, 1) + (
        spec_u32_to_le_bytes(metadata.price_scale) + spec_u32_to_le_bytes(metadata.size_scale)),
        r@.len() <= 0xffff,
        entry_fault(
            r@,
            r@.len() as u64,
            "[('price_scale', '<u4'), ('size_scale', '<u4'), ]"@,
            8,
        ) is None,
        Seq::new(entry_rows(r@), |i: int| metadata_at(entry_payload(r@), i)) == seq![*metadata],
{
    let mut bytes: Vec<u8> = match array_header(metadata_dtype(), 1) {
        Some(header) => header,
        None => Vec::new(),
    };
    let mut encoded: Vec<u8> = encode_metadata(metadata);
    let ghost payload = encoded@;
    let ghost header = bytes@;
    bytes.append(&mut encoded);
    let len: usize = bytes.len();
    proof {
        lemma_metadata_descr();
        assert(bytes@ == header + payload);
        assert(header.len() + payload.len() == len);
        lemma_written_header_is_plain(
            "[('price_scale', '<u4'), ('size_scale', '<u4'), ]"@,
            1,
            payload,
        );
        lemma_rows_behind_header(
            "[('price_scale', '<u4'), ('size_scale', '<u4'), ]"@,
            1,
            payload,
            8,
        );
        assert(Seq::new(entry_rows(bytes@), |i: int| metadata_at(entry_payload(bytes@), i))
            =~= seq![*metadata]);
    }
    bytes
}

} // verus!
