//! Archives of arrays.
use std::io::Read;
use std::io::Write;

use vstd::prelude::*;
use vstd::string::*;

use crate::data::fixed::DATA_SCALE;
use crate::data::format::check_metadata;
use crate::data::format::decode_events;
use crate::data::format::decoded;
use crate::data::format::event_at;
use crate::data::format::event_bytes;
use crate::data::format::latency_at;
use crate::data::format::metadata_at;
use crate::data::format::EntryFault;
use crate::data::format::FormatError;
use crate::data::format::FormatFault;
use crate::data::format::MarketDataMetadata;
use crate::data::format::StoredEvent;
use crate::data::npy::entry_fault;
use crate::data::npy::entry_payload;
use crate::data::npy::entry_rows;
use crate::data::npy::header_bytes;
use crate::data::npy::metadata_descr;
use crate::data::npy::order_latency_descr;
use crate::data::npy::read_array;
use crate::data::npy::read_latency_array;
use crate::data::npy::read_metadata_array;
use crate::data::npy::stored_event_descr;
use crate::data::npy::write_array;
use crate::data::npy::write_metadata;
use crate::decimal::a_decimal_is_its_parts;
use crate::models::latency::OrderLatencyRow;
use crate::types::Event;

verus! {

/// An entry of an archive.
#[derive(Debug)]
pub struct Entry {
    /// Its bytes, up to as many as it says that it has.
    pub bytes: Vec<u8>,
    /// The number of bytes that it says that it has.
    pub size: u64,
}

/// The entry of a name that the `zip` crate reads from the bytes of an archive: its bytes, up to as
/// many as it says that it has, and how many it says that it has; or why it cannot be read.
pub uninterp spec fn outside_zip_entry(archive: Seq<u8>, name: Seq<char>) -> Result<
    (Seq<u8>, u64),
    EntryFault,
>;

/// That an entry was found.
pub open spec fn found(bytes: Seq<u8>, size: u64) -> Result<(Seq<u8>, u64), EntryFault> {
    Ok((bytes, size))
}

/// That an entry could not be read.
pub open spec fn not_found(fault: EntryFault) -> Result<(Seq<u8>, u64), EntryFault> {
    Err(fault)
}

/// Calls `zip::ZipArchive::new` on the bytes of an archive, `by_name` on it, and `read_to_end` on
/// the entry, for no more bytes than its `size` says. The result is named, not stated. An entry
/// that the archive lacks is told apart from all that is damaged or not supported.
#[verifier::external_body]
fn zip_entry(archive: &[u8], name: &str) -> (r: Result<Entry, EntryFault>)
    ensures
        match r {
            Ok(entry) => outside_zip_entry(archive@, name@) == found(entry.bytes@, entry.size),
            Err(fault) => outside_zip_entry(archive@, name@) == not_found(fault),
        },
{
    let archive = zip::ZipArchive::new(std::io::Cursor::new(archive));
    let mut archive = archive.map_err(|_| EntryFault::Damaged)?;
    let file = match archive.by_name(name) {
        Ok(file) => file,
        Err(zip::result::ZipError::FileNotFound) => return Err(EntryFault::Missing),
        Err(_) => return Err(EntryFault::Damaged),
    };
    let size = file.size();
    let mut bytes = Vec::new();
    file.take(size).read_to_end(&mut bytes).map_err(|_| EntryFault::Damaged)?;
    Ok(Entry { bytes, size })
}

/// Calls `start_file`, `write_all` and `finish` of `zip::ZipWriter` on a vector, for two entries
/// that are deflated, of which the second may be large. From an archive that comes back, the two
/// entries are read as they were written. One comes back where the first entry is small: a vector
/// takes what is written to it, the names differ, and only an entry that is not said to be large can
/// be too large.
#[verifier::external_body]
fn zip_of(first: &str, first_bytes: &[u8], second: &str, second_bytes: &[u8]) -> (r: Option<
    Vec<u8>,
>)
    requires
        first@ == "metadata.npy"@,
        second@ == "data.npy"@,
    ensures
        first_bytes@.len() <= 0xffff ==> r is Some,
        r matches Some(archive) ==> outside_zip_entry(archive@, first@) == found(
            first_bytes@,
            first_bytes@.len() as u64,
        ),
        r matches Some(archive) ==> outside_zip_entry(archive@, second@) == found(
            second_bytes@,
            second_bytes@.len() as u64,
        ),
{
    let deflated = zip::CompressionMethod::Deflated;
    let options = zip::write::SimpleFileOptions::default().compression_method(deflated);
    let mut archive = zip::ZipWriter::new(std::io::Cursor::new(Vec::new()));
    archive.start_file(first, options).ok()?;
    archive.write_all(first_bytes).ok()?;
    archive.start_file(second, options.large_file(true)).ok()?;
    archive.write_all(second_bytes).ok()?;
    Some(archive.finish().ok()?.into_inner())
}

/// Why the metadata of an archive is not that of market data, where it is not.
pub open spec fn metadata_fault(archive: Seq<u8>) -> Option<FormatFault> {
    match outside_zip_entry(archive, "metadata.npy"@) {
        Err(fault) => Some(FormatFault::Entry(fault)),
        Ok((bytes, size)) => match entry_fault(
            bytes,
            size,
            "[('price_scale', '<u4'), ('size_scale', '<u4'), ]"@,
            8,
        ) {
            Some(fault) => Some(fault),
            None => if entry_rows(bytes) == 1 && metadata_at(
                entry_payload(bytes),
                0,
            ).is_current() {
                None
            } else {
                Some(FormatFault::UnsupportedScales)
            },
        },
    }
}

/// The stored events of an archive, or why it has none. The metadata is judged before the events are
/// looked at.
pub open spec fn stored_events(archive: Seq<u8>) -> Result<Seq<StoredEvent>, FormatFault> {
    match metadata_fault(archive) {
        Some(fault) => Err(fault),
        None => match outside_zip_entry(archive, "data.npy"@) {
            Err(fault) => Err(FormatFault::Entry(fault)),
            Ok((bytes, size)) => match entry_fault(
                bytes,
                size,
                "[('ev', '<u8'), ('exch_ts', '<i8'), ('local_ts', '<i8'), ('px', '<i8'), ('qty', '<i8'), ]"@,
                40,
            ) {
                Some(fault) => Err(fault),
                None => Ok(
                    Seq::new(entry_rows(bytes), |i: int| event_at(entry_payload(bytes), i)),
                ),
            },
        },
    }
}

/// The market data of an archive, or why it has none.
pub open spec fn market_data(archive: Seq<u8>) -> Result<Seq<Event>, FormatFault> {
    match stored_events(archive) {
        Ok(events) => Ok(Seq::new(events.len(), |i: int| decoded(events[i]))),
        Err(fault) => Err(fault),
    }
}

/// The order latencies of an archive, or why it has none.
pub open spec fn order_latencies(archive: Seq<u8>) -> Result<Seq<OrderLatencyRow>, FormatFault> {
    match outside_zip_entry(archive, "data.npy"@) {
        Err(fault) => Err(FormatFault::Entry(fault)),
        Ok((bytes, size)) => match entry_fault(
            bytes,
            size,
            "[('req_ts', '<i8'), ('exch_ts', '<i8'), ('resp_ts', '<i8'), ]"@,
            24,
        ) {
            Some(fault) => Err(fault),
            None => Ok(Seq::new(entry_rows(bytes), |i: int| latency_at(entry_payload(bytes), i))),
        },
    }
}

/// Checks that the metadata of an archive is that of market data.
fn check_archive(archive: &[u8]) -> (r: Result<(), FormatError>)
    ensures
        match metadata_fault(archive@) {
            Some(fault) => r is Err && r->Err_0@ == fault,
            None => r is Ok,
        },
{
    let entry: Entry = match zip_entry(archive, "metadata.npy") {
        Ok(entry) => entry,
        Err(fault) => {
            return Err(FormatError::Entry(fault));
        },
    };
    match read_metadata_array(entry.bytes.as_slice(), entry.size, metadata_descr()) {
        Ok(rows) => check_metadata(&rows),
        Err(error) => Err(error),
    }
}

/// Reads the stored events of an archive.
pub fn read_stored_events(archive: &[u8]) -> (r: Result<Vec<StoredEvent>, FormatError>)
    ensures
        match stored_events(archive@) {
            Ok(events) => r is Ok && r->Ok_0@ == events,
            Err(fault) => r is Err && r->Err_0@ == fault,
        },
{
    match check_archive(archive) {
        Ok(()) => {},
        Err(error) => {
            return Err(error);
        },
    }
    match zip_entry(archive, "data.npy") {
        Ok(entry) => read_array(entry.bytes.as_slice(), entry.size, stored_event_descr()),
        Err(fault) => Err(FormatError::Entry(fault)),
    }
}

/// Reads the market data of an archive.
pub fn read_market_data(archive: &[u8]) -> (r: Result<Vec<Event>, FormatError>)
    ensures
        match market_data(archive@) {
            Ok(events) => r is Ok && r->Ok_0@ == events,
            Err(fault) => r is Err && r->Err_0@ == fault,
        },
{
    match read_stored_events(archive) {
        Ok(events) => Ok(decode_events(&events)),
        Err(error) => Err(error),
    }
}

/// Reads the order latencies of an archive.
pub fn load_order_latency(archive: &[u8]) -> (r: Result<Vec<OrderLatencyRow>, FormatError>)
    ensures
        match order_latencies(archive@) {
            Ok(rows) => r is Ok && r->Ok_0@ == rows,
            Err(fault) => r is Err && r->Err_0@ == fault,
        },
{
    match zip_entry(archive, "data.npy") {
        Ok(entry) => read_latency_array(
            entry.bytes.as_slice(),
            entry.size,
            order_latency_descr(),
        ),
        Err(fault) => Err(FormatError::Entry(fault)),
    }
}

/// Writes an archive of market data. There always is one. From what is written, the events are read
/// back as they are.
pub fn write_market_data(events: &Vec<StoredEvent>) -> (r: Option<Vec<u8>>)
    ensures
        r is Some,
        r matches Some(archive) ==> metadata_fault(archive@) is None,
        r matches Some(archive) ==> ({
            let data = header_bytes(
                "[('ev', '<u8'), ('exch_ts', '<i8'), ('local_ts', '<i8'), ('px', '<i8'), ('qty', '<i8'), ]"@,
                events@.len() as u64,
            ) + event_bytes(events@);
            outside_zip_entry(archive@, "data.npy"@) == found(data, data.len() as u64)
        }),
        r matches Some(archive) ==> stored_events(archive@) == Ok::<
            Seq<StoredEvent>,
            FormatFault,
        >(events@),
{
    let current: MarketDataMetadata = MarketDataMetadata::current();
    let metadata: Vec<u8> = write_metadata(&current);
    let data: Vec<u8> = write_array(events);
    let r: Option<Vec<u8>> = zip_of(
        "metadata.npy",
        metadata.as_slice(),
        "data.npy",
        data.as_slice(),
    );
    proof {
        if r is Some {
            let rows = Seq::new(
                entry_rows(metadata@),
                |i: int| metadata_at(entry_payload(metadata@), i),
            );
            assert(rows == seq![current]);
            assert(rows.len() == 1);
            assert(rows[0] == metadata_at(entry_payload(metadata@), 0));
        }
    }
    r
}

/// Market data that is written is read back exactly: as many events, in the same order, each with its
/// flags and its times, and with its price and its quantity at the scale of stored numbers.
pub proof fn written_market_data_is_read_back(archive: Seq<u8>, events: Seq<StoredEvent>)
    requires
        stored_events(archive) == Ok::<Seq<StoredEvent>, FormatFault>(events),
    ensures
        market_data(archive) matches Ok(read) && read.len() == events.len() && forall|i: int|
            0 <= i < events.len() ==> {
                &&& (#[trigger] read[i]).ev == events[i].ev
                &&& read[i].exch_ts == events[i].exch_ts
                &&& read[i].local_ts == events[i].local_ts
                &&& read[i].px.mantissa_part() == events[i].px
                &&& read[i].px.scale_part() == DATA_SCALE
                &&& read[i].qty.mantissa_part() == events[i].qty
                &&& read[i].qty.scale_part() == DATA_SCALE
            },
{
    let read = market_data(archive)->Ok_0;
    assert forall|i: int| 0 <= i < events.len() implies (#[trigger] read[i]).px.mantissa_part()
        == events[i].px && read[i].px.scale_part() == DATA_SCALE && read[i].qty.mantissa_part()
        == events[i].qty && read[i].qty.scale_part() == DATA_SCALE by {
        a_decimal_is_its_parts(read[i].px, events[i].px as i128, DATA_SCALE);
        a_decimal_is_its_parts(read[i].qty, events[i].qty as i128, DATA_SCALE);
    }
}

/// An entry that cannot be read is reported, and that of the metadata before that of the events.
/// Order latencies are read without metadata: archives with the same rows have the same latencies.
pub proof fn unreadable_entries_are_reported(archive: Seq<u8>, other: Seq<u8>, fault: EntryFault)
    ensures
        outside_zip_entry(archive, "metadata.npy"@) == not_found(fault) ==> {
            &&& stored_events(archive) == Err::<Seq<StoredEvent>, FormatFault>(
                FormatFault::Entry(fault),
            )
            &&& market_data(archive) == Err::<Seq<Event>, FormatFault>(FormatFault::Entry(fault))
        },
        outside_zip_entry(archive, "data.npy"@) == not_found(fault) ==> {
            &&& order_latencies(archive) == Err::<Seq<OrderLatencyRow>, FormatFault>(
                FormatFault::Entry(fault),
            )
            &&& stored_events(archive) is Err
            &&& metadata_fault(archive) is None ==> stored_events(archive) == Err::<
                Seq<StoredEvent>,
                FormatFault,
            >(FormatFault::Entry(fault))
        },
        outside_zip_entry(archive, "data.npy"@) == outside_zip_entry(other, "data.npy"@)
            ==> order_latencies(archive) == order_latencies(other),
{
}

} // verus!
