//! The record that a tube keeps of the bytes that crossed it.
use vstd::prelude::*;
use vstd::slice::slice_to_vec;
use vstd::string::StringExecFns;

verus! {

/// Which way bytes crossed the tube.
#[derive(Clone, Copy, Debug, PartialEq, Eq, Structural)]
pub enum Direction {
    /// The bytes came out of the channel.
    Received,
    /// The channel accepted the bytes.
    Sent,
}

/// One entry of the journal: bytes that crossed the tube together, and
/// which way.
#[derive(Debug)]
pub struct Record {
    /// Which way the bytes went.
    pub direction: Direction,
    /// The bytes.
    pub bytes: Vec<u8>,
}

/// What proofs know of a record.
pub ghost struct Entry {
    /// Which way the bytes went.
    pub direction: Direction,
    /// The bytes.
    pub bytes: Seq<u8>,
}

/// The text of `pretty_hex::pretty_hex` for these bytes: a header with
/// their number, then rows of sixteen, each with its offset, the bytes in
/// hexadecimal and their printable characters.
pub uninterp spec fn hex_dump(bytes: Seq<u8>) -> Seq<char>;

/// Calls `pretty_hex::pretty_hex`, which formats the bytes it is given
/// with its default configuration and returns the text. The contract
/// claims only that the text depends on the bytes alone.
#[verifier::external_body]
fn pretty_hex(bytes: &Vec<u8>) -> (text: String)
    ensures
        text@ == hex_dump(bytes@),
{
    pretty_hex::pretty_hex(bytes)
}

impl Record {
    /// What proofs know of this record.
    pub open spec fn view(&self) -> Entry {
        Entry { direction: self.direction, bytes: self.bytes@ }
    }

    /// The word that a log line for this direction starts with, followed
    /// by a space.
    pub open spec fn prefix(direction: Direction) -> Seq<char> {
        match direction {
            Direction::Received => "Received "@,
            Direction::Sent => "Sent "@,
        }
    }

    /// The log target for this direction.
    pub open spec fn target_of(direction: Direction) -> Seq<char> {
        match direction {
            Direction::Received => "Tube::recv"@,
            Direction::Sent => "Tube::send"@,
        }
    }

    /// A record of `bytes` going in `direction`.
    pub fn new(direction: Direction, bytes: &[u8]) -> (r: Self)
        ensures
            r@ == (Entry { direction, bytes: bytes@ }),
    {
        Record { direction, bytes: slice_to_vec(bytes) }
    }

    /// The log target under which this record is to be emitted.
    pub fn target(&self) -> (r: &'static str)
        ensures
            r@ == Self::target_of(self.direction),
    {
        match self.direction {
            Direction::Received => "Tube::recv",
            Direction::Sent => "Tube::send",
        }
    }

    /// The log line for this record: the direction in a word, then the
    /// bytes as a hex dump.
    pub fn message(&self) -> (r: String)
        ensures
            r@ == Self::prefix(self.direction) + hex_dump(self.bytes@),
    {
        let word = match self.direction {
            Direction::Received => "Received ",
            Direction::Sent => "Sent ",
        };
        let mut text = String::from_str(word);
        let dump = pretty_hex(&self.bytes);
        text.append(dump.as_str());
        text
    }
}

/// What proofs know of a journal: its entries, oldest first.
pub open spec fn entries(journal: Seq<Record>) -> Seq<Entry> {
    Seq::new(journal.len(), |i: int| journal[i]@)
}

/// Appends a record of `bytes` going in `direction`.
pub fn record(journal: &mut Vec<Record>, direction: Direction, bytes: &[u8])
    ensures
        entries(final(journal)@) == entries(old(journal)@).push(Entry { direction, bytes: bytes@ }),
{
    journal.push(Record::new(direction, bytes));
    assert(entries(journal@) =~= entries(old(journal)@).push(Entry { direction, bytes: bytes@ }));
}

} // verus!
