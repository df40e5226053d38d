//! The lines that a device browser prints, read into discovery reports.
//!
//! A line is taken apart on its bytes. Every piece that is handed out as
//! text begins and ends where a character does, because the marks that
//! separate the pieces are single-byte characters.

use vstd::prelude::*;
use vstd::string::*;
use vstd::utf8::*;
use crate::address::Address;
use crate::discovery::{Device, DeviceModel};
use crate::events::{Event, EventModel};

verus! {

/// The byte that separates the fields of a browser record.
pub const SEPARATOR: u8 = 0x3b;

/// The fields of a record: the runs of bytes between separators, in order.
/// An empty line has one empty field, and a separator at the end is followed
/// by an empty field.
pub open spec fn fields(bytes: Seq<u8>) -> Seq<Seq<u8>>
    decreases bytes.len(),
{
    if bytes.len() == 0 {
        seq![Seq::<u8>::empty()]
    } else if bytes.last() == SEPARATOR {
        fields(bytes.drop_last()).push(Seq::<u8>::empty())
    } else {
        let before = fields(bytes.drop_last());
        before.drop_last().push(before.last().push(bytes.last()))
    }
}

/// In well-formed text, a single-byte character begins and ends on a
/// character boundary.
pub proof fn lemma_boundaries_around_ascii(bytes: Seq<u8>, at: int)
    requires
        valid_utf8(bytes),
        0 <= at < bytes.len(),
        bytes[at] < 0x80,
    ensures
        is_char_boundary(bytes, at),
        is_char_boundary(bytes, at + 1),
{
    is_char_boundary_iff_is_leading_byte(bytes, at);
    if at + 1 == bytes.len() {
        is_char_boundary_start_end_of_seq(bytes);
    } else {
        valid_utf8_split(bytes, at);
        let rest = bytes.subrange(at, bytes.len() as int);
        assert(rest[0] == bytes[at]);
        assert(length_of_first_scalar(rest) == 1);
        let tail = pop_first_scalar(rest);
        assert(tail.len() == rest.len() - 1);
        assert(valid_utf8(tail));
        assert(tail[0] == bytes[at + 1]);
        assert(!is_continuation_byte(tail[0]));
        is_char_boundary_iff_not_is_continuation_byte(bytes, at + 1);
    }
}

/// A character boundary of a text is one of each tail that begins on a
/// boundary before it.
pub proof fn lemma_boundary_in_tail(bytes: Seq<u8>, from: int, to: int)
    requires
        valid_utf8(bytes),
        0 <= from <= to <= bytes.len(),
        is_char_boundary(bytes, from),
        is_char_boundary(bytes, to),
    ensures
        valid_utf8(bytes.subrange(from, bytes.len() as int)),
        is_char_boundary(bytes.subrange(from, bytes.len() as int), to - from),
{
    valid_utf8_split(bytes, from);
    let tail = bytes.subrange(from, bytes.len() as int);
    if to == from {
    } else if to == bytes.len() {
        is_char_boundary_start_end_of_seq(tail);
    } else {
        is_char_boundary_iff_not_is_continuation_byte(bytes, to);
        assert(tail[to - from] == bytes[to]);
        is_char_boundary_iff_not_is_continuation_byte(tail, to - from);
    }
}

/// The piece of `line` between two character boundaries, given as byte offsets.
fn cut<'a>(line: &'a str, from: usize, to: usize) -> (piece: &'a str)
    requires
        from <= to <= line.spec_bytes().len(),
        is_char_boundary(line.spec_bytes(), from as int),
        is_char_boundary(line.spec_bytes(), to as int),
    ensures
        piece.spec_bytes() == line.spec_bytes().subrange(from as int, to as int),
{
    proof {
        encode_utf8_valid_utf8(line@);
        lemma_boundary_in_tail(line.spec_bytes(), from as int, to as int);
    }
    let (_, tail) = line.split_at(from);
    let (piece, _) = tail.split_at(to - from);
    proof {
        assert(piece.spec_bytes() =~= line.spec_bytes().subrange(from as int, to as int));
    }
    piece
}

/// Where the fields of `bytes` stand: for each field, in order, the offset
/// of its first byte and the offset after its last one.
fn field_bounds(bytes: &[u8]) -> (bounds: Vec<(usize, usize)>)
    ensures
        bounds.len() == fields(bytes@).len(),
        forall|k: int|
            0 <= k < bounds.len() ==> {
                let (from, to) = #[trigger] bounds[k];
                &&& from <= to <= bytes.len()
                &&& bytes@.subrange(from as int, to as int) == fields(bytes@)[k]
                &&& from == 0 || bytes[from - 1] == SEPARATOR
                &&& to == bytes.len() || bytes[to as int] == SEPARATOR
            },
{
    let mut bounds: Vec<(usize, usize)> = Vec::new();
    let mut start: usize = 0;
    let mut i: usize = 0;
    proof {
        assert(bytes@.take(0) =~= Seq::<u8>::empty());
        assert(bytes@.subrange(0, 0) =~= Seq::<u8>::empty());
    }
    while i < bytes.len()
        invariant
            start <= i <= bytes.len(),
            start == 0 || bytes[start - 1] == SEPARATOR,
            fields(bytes@.take(i as int)).len() == bounds.len() + 1,
            fields(bytes@.take(i as int)).last() == bytes@.subrange(start as int, i as int),
            forall|k: int|
                0 <= k < bounds.len() ==> {
                    let (from, to) = #[trigger] bounds[k];
                    &&& from <= to < i
                    &&& bytes@.subrange(from as int, to as int) == fields(bytes@.take(i as int))[k]
                    &&& from == 0 || bytes[from - 1] == SEPARATOR
                    &&& bytes[to as int] == SEPARATOR
                },
        decreases bytes.len() - i,
    {
        let ghost before = fields(bytes@.take(i as int));
        proof {
            assert(bytes@.take(i + 1).drop_last() =~= bytes@.take(i as int));
            assert(bytes@.take(i + 1).last() == bytes[i as int]);
        }
        if bytes[i] == SEPARATOR {
            bounds.push((start, i));
            start = i + 1;
            proof {
                assert(bytes@.subrange(start as int, start as int) =~= Seq::<u8>::empty());
                assert(fields(bytes@.take(i + 1)) == before.push(Seq::<u8>::empty()));
            }
        } else {
            proof {
                assert(bytes@.subrange(start as int, i + 1) =~= bytes@.subrange(
                    start as int,
                    i as int,
                ).push(bytes[i as int]));
                assert(fields(bytes@.take(i + 1)) == before.drop_last().push(
                    before.last().push(bytes[i as int]),
                ));
            }
        }
        i += 1;
    }
    proof {
        assert(bytes@.take(bytes.len() as int) =~= bytes@);
    }
    bounds.push((start, bytes.len()));
    bounds
}

/// A decimal digit.
pub open spec fn is_digit(byte: u8) -> bool {
    0x30 <= byte <= 0x39
}

/// The number that a run of decimal digits writes.
pub open spec fn decimal(digits: Seq<u8>) -> nat
    decreases digits.len(),
{
    if digits.len() == 0 {
        0
    } else {
        (decimal(digits.drop_last()) * 10 + (digits.last() - 0x30)) as nat
    }
}

/// The digits of a number that may be written with a plus sign in front.
pub open spec fn after_sign(text: Seq<u8>) -> Seq<u8> {
    if text.len() > 0 && text[0] == 0x2b {
        text.skip(1)
    } else {
        text
    }
}

/// The port that `text` writes: at least one decimal digit, nothing else
/// but a plus sign in front, and a value that fits sixteen bits.
pub open spec fn port_of(text: Seq<u8>) -> Option<u16> {
    let digits = after_sign(text);
    if digits.len() > 0 && (forall|i: int| 0 <= i < digits.len() ==> is_digit(#[trigger] digits[i]))
        && decimal(digits) <= u16::MAX {
        Some(decimal(digits) as u16)
    } else {
        None
    }
}

/// More digits never write a smaller number.
pub proof fn lemma_decimal_grows(digits: Seq<u8>, k: int)
    requires
        0 <= k <= digits.len(),
        forall|i: int| 0 <= i < digits.len() ==> is_digit(#[trigger] digits[i]),
    ensures
        decimal(digits.take(k)) <= decimal(digits),
    decreases digits.len() - k,
{
    if k == digits.len() {
        assert(digits.take(k) =~= digits);
    } else {
        let init = digits.drop_last();
        assert(init.take(k) =~= digits.take(k));
        lemma_decimal_grows(init, k);
    }
}

/// Reads the port written between the offsets `from` and `to`.
fn read_port(bytes: &[u8], from: usize, to: usize) -> (port: Option<u16>)
    requires
        from <= to <= bytes.len(),
    ensures
        port == port_of(bytes@.subrange(from as int, to as int)),
{
    let ghost text = bytes@.subrange(from as int, to as int);
    let mut i: usize = from;
    if from < to && bytes[from] == 0x2b {
        i = from + 1;
    }
    let ghost digits = after_sign(text);
    let first: usize = i;
    proof {
        if from < to {
            assert(text[0] == bytes[from as int]);
        }
        assert(digits =~= bytes@.subrange(first as int, to as int));
    }
    if i == to {
        return None;
    }
    let mut value: u32 = 0;
    while i < to
        invariant
            from <= first <= i <= to <= bytes.len(),
            digits == after_sign(bytes@.subrange(from as int, to as int)),
            digits == bytes@.subrange(first as int, to as int),
            forall|j: int| 0 <= j < i - first ==> is_digit(#[trigger] digits[j]),
            value == decimal(digits.take(i - first)),
            value <= u16::MAX,
        decreases to - i,
    {
        let byte = bytes[i];
        if byte < 0x30 || byte > 0x39 {
            proof {
                assert(digits[i - first] == byte);
            }
            return None;
        }
        let next: u32 = value * 10 + (byte - 0x30) as u32;
        proof {
            assert(digits.take(i - first + 1).drop_last() =~= digits.take(i - first));
            assert(digits.take(i - first + 1).last() == byte);
            assert(next == decimal(digits.take(i - first + 1)));
        }
        if next > 0xffff {
            proof {
                if forall|j: int| 0 <= j < digits.len() ==> is_digit(#[trigger] digits[j]) {
                    lemma_decimal_grows(digits, i - first + 1);
                }
            }
            return None;
        }
        value = next;
        i += 1;
    }
    proof {
        assert(digits.take(to - first) =~= digits);
    }
    Some(value as u16)
}

/// The text between the offsets `from` and `to` of `line`, where a
/// single-byte character or an end of the line stands on either side.
fn text_between(line: &str, from: usize, to: usize) -> (text: String)
    requires
        from <= to <= line.spec_bytes().len(),
        from == 0 || line.spec_bytes()[from - 1] < 0x80,
        to == line.spec_bytes().len() || line.spec_bytes()[to as int] < 0x80,
    ensures
        text@ == decode_utf8(line.spec_bytes().subrange(from as int, to as int)),
{
    proof {
        let bytes = line.spec_bytes();
        encode_utf8_valid_utf8(line@);
        is_char_boundary_start_end_of_seq(bytes);
        if from > 0 {
            lemma_boundaries_around_ascii(bytes, from - 1);
        }
        if to < bytes.len() {
            lemma_boundaries_around_ascii(bytes, to as int);
        }
    }
    let piece = cut(line, from, to);
    proof {
        encode_utf8_decode_utf8(piece@);
    }
    piece.to_owned()
}

/// The mark of a record that announces a service.
pub const ANNOUNCED: u8 = 0x2b;

/// The mark of a record that gives a service's host, address and port.
pub const RESOLVED: u8 = 0x3d;

/// The mark of a record that withdraws a service.
pub const REMOVED: u8 = 0x2d;

/// The fields that every record has: mark, interface, protocol, service
/// identifier, service type and domain.
pub const COMMON_FIELDS: usize = 6;

/// The fields of a resolved record that are read: the common ones, then
/// host name, address and port.
pub const RESOLVED_FIELDS: usize = 9;

/// What one line of the browser says.
#[derive(Debug)]
pub enum Browse {
    /// A service was seen; how to reach it is not known yet.
    Announced { id: String },
    /// A service was seen, and this is where it is.
    Resolved { id: String, name: String, host: String, port: u16 },
    /// A service has gone.
    Removed { id: String },
}

/// What a `Browse` is in contracts.
pub enum BrowseModel {
    Announced { id: Seq<char> },
    Resolved { id: Seq<char>, name: Seq<char>, host: Seq<char>, port: u16 },
    Removed { id: Seq<char> },
}

impl View for Browse {
    type V = BrowseModel;

    open spec fn view(&self) -> BrowseModel {
        match self {
            Browse::Announced { id } => BrowseModel::Announced { id: id@ },
            Browse::Resolved { id, name, host, port } => BrowseModel::Resolved {
                id: id@,
                name: name@,
                host: host@,
                port: *port,
            },
            Browse::Removed { id } => BrowseModel::Removed { id: id@ },
        }
    }
}

/// Why a line is not a record.
#[derive(Clone, Copy, Debug, PartialEq, Eq, Structural)]
pub enum FeedError {
    /// The line has fewer fields than its kind of record needs.
    MissingField,
    /// The first field is none of the three marks.
    UnknownMark,
    /// The port field does not write a port.
    BadPort,
    /// A column of the line begins in the middle of a character.
    BrokenText,
}

/// The record that a line of separated fields stands for. The fourth field
/// identifies the service; a resolved record names the host in its seventh
/// field, its address in the eighth and its port in the ninth.
pub open spec fn record_of(bytes: Seq<u8>) -> Result<BrowseModel, FeedError> {
    let f = fields(bytes);
    if f.len() < COMMON_FIELDS {
        Err(FeedError::MissingField)
    } else if f[0] == seq![ANNOUNCED] {
        Ok(BrowseModel::Announced { id: decode_utf8(f[3]) })
    } else if f[0] == seq![REMOVED] {
        Ok(BrowseModel::Removed { id: decode_utf8(f[3]) })
    } else if f[0] == seq![RESOLVED] {
        if f.len() < RESOLVED_FIELDS {
            Err(FeedError::MissingField)
        } else {
            match port_of(f[8]) {
                Some(port) => Ok(
                    BrowseModel::Resolved {
                        id: decode_utf8(f[3]),
                        name: decode_utf8(f[6]),
                        host: decode_utf8(f[7]),
                        port,
                    },
                ),
                None => Err(FeedError::BadPort),
            }
        }
    } else {
        Err(FeedError::UnknownMark)
    }
}

/// Reads one line of the browser, without its line end.
pub fn parse_browse_line(line: &str) -> (record: Result<Browse, FeedError>)
    ensures
        match record {
            Ok(browse) => record_of(line.spec_bytes()) == Ok::<BrowseModel, FeedError>(browse@),
            Err(error) => record_of(line.spec_bytes()) == Err::<BrowseModel, FeedError>(error),
        },
{
    let bytes = line.as_bytes();
    let bounds = field_bounds(bytes);
    if bounds.len() < COMMON_FIELDS {
        return Err(FeedError::MissingField);
    }
    let ghost f = fields(bytes@);
    let (mark_from, mark_to) = bounds[0];
    let (id_from, id_to) = bounds[3];
    proof {
        assert(f[0] == bytes@.subrange(mark_from as int, mark_to as int));
        assert(f[0].len() == mark_to - mark_from);
        if mark_to - mark_from == 1 {
            assert(f[0] =~= seq![bytes[mark_from as int]]);
            assert(seq![bytes[mark_from as int]][0] == bytes[mark_from as int]);
        }
        assert(seq![ANNOUNCED].len() == 1 && seq![ANNOUNCED][0] == ANNOUNCED);
        assert(seq![REMOVED].len() == 1 && seq![REMOVED][0] == REMOVED);
        assert(seq![RESOLVED].len() == 1 && seq![RESOLVED][0] == RESOLVED);
    }
    if mark_to - mark_from != 1 {
        return Err(FeedError::UnknownMark);
    }
    let mark = bytes[mark_from];
    if mark == ANNOUNCED {
        Ok(Browse::Announced { id: text_between(line, id_from, id_to) })
    } else if mark == REMOVED {
        Ok(Browse::Removed { id: text_between(line, id_from, id_to) })
    } else if mark == RESOLVED {
        if bounds.len() < RESOLVED_FIELDS {
            return Err(FeedError::MissingField);
        }
        let (name_from, name_to) = bounds[6];
        let (host_from, host_to) = bounds[7];
        let (port_from, port_to) = bounds[8];
        match read_port(bytes, port_from, port_to) {
            Some(port) => Ok(
                Browse::Resolved {
                    id: text_between(line, id_from, id_to),
                    name: text_between(line, name_from, name_to),
                    host: text_between(line, host_from, host_to),
                    port,
                },
            ),
            None => Err(FeedError::BadPort),
        }
    } else {
        Err(FeedError::UnknownMark)
    }
}

/// The discovery event that a record amounts to, once the address of its
/// service is known or known to be missing. A service that cannot be
/// reached yet yields no event; a withdrawal needs no address.
pub open spec fn event_for(browse: BrowseModel, addr: Option<Address>) -> Option<EventModel> {
    match browse {
        BrowseModel::Removed { id } => Some(EventModel::Remove(id)),
        BrowseModel::Resolved { id, name, host, port } => match addr {
            Some(addr) => Some(EventModel::Add(DeviceModel { id, name, addr })),
            None => None,
        },
        BrowseModel::Announced { id } => match addr {
            Some(addr) => Some(EventModel::Add(DeviceModel { id, name: id, addr })),
            None => None,
        },
    }
}

impl Browse {
    /// The identifier of the service that the record speaks of.
    pub fn id(&self) -> (id: &String)
        ensures
            id@ == match self@ {
                BrowseModel::Announced { id } => id,
                BrowseModel::Resolved { id, .. } => id,
                BrowseModel::Removed { id } => id,
            },
    {
        match self {
            Browse::Announced { id } => id,
            Browse::Resolved { id, .. } => id,
            Browse::Removed { id } => id,
        }
    }

    /// Turns the record into a discovery event, given the address that was
    /// found for its service, if any. An announced service is named by its
    /// identifier.
    pub fn into_event(self, addr: Option<Address>) -> (event: Option<Event>)
        ensures
            match event {
                Some(event) => event_for(self@, addr) == Some(event@),
                None => event_for(self@, addr) is None,
            },
    {
        match self {
            Browse::Removed { id } => Some(Event::Remove(id)),
            Browse::Resolved { id, name, host: _, port: _ } => match addr {
                Some(addr) => Some(Event::Add(Device { id, name, addr })),
                None => None,
            },
            Browse::Announced { id } => match addr {
                Some(addr) => {
                    let name = id.clone();
                    Some(Event::Add(Device { id, name, addr }))
                },
                None => None,
            },
        }
    }
}

/// The offset at which the columnar browser writes what happened.
pub const MARK_COLUMN: usize = 14;

/// The offset after the mark.
pub const MARK_END: usize = 17;

/// The offset at which the columnar browser writes the instance name,
/// which runs to the end of the line.
pub const NAME_COLUMN: usize = 73;

/// How the columnar browser begins a line that only gives the date.
pub open spec fn date_prefix() -> Seq<u8> {
    seq![0x44u8, 0x41u8, 0x54u8, 0x45u8, 0x3au8]
}

/// How the columnar browser marks a service that appeared.
pub open spec fn added_mark() -> Seq<u8> {
    seq![0x41u8, 0x64u8, 0x64u8]
}

/// How the columnar browser marks a service that went away.
pub open spec fn removed_mark() -> Seq<u8> {
    seq![0x52u8, 0x6du8, 0x76u8]
}

/// Whether `bytes` begins with `prefix`.
pub open spec fn begins_with(bytes: Seq<u8>, prefix: Seq<u8>) -> bool {
    bytes.len() >= prefix.len() && bytes.subrange(0, prefix.len() as int) == prefix
}

/// The record that a line of the columnar browser stands for: none for a
/// date line, else what its mark says of the instance named from the name
/// column on.
pub open spec fn column_record_of(bytes: Seq<u8>) -> Result<Option<BrowseModel>, FeedError> {
    if begins_with(bytes, date_prefix()) {
        Ok(None)
    } else if bytes.len() < NAME_COLUMN {
        Err(FeedError::MissingField)
    } else {
        let mark = bytes.subrange(MARK_COLUMN as int, MARK_END as int);
        let name = bytes.subrange(NAME_COLUMN as int, bytes.len() as int);
        if mark != added_mark() && mark != removed_mark() {
            Err(FeedError::UnknownMark)
        } else if !is_char_boundary(bytes, NAME_COLUMN as int) {
            Err(FeedError::BrokenText)
        } else if mark == added_mark() {
            Ok(Some(BrowseModel::Announced { id: decode_utf8(name) }))
        } else {
            Ok(Some(BrowseModel::Removed { id: decode_utf8(name) }))
        }
    }
}

/// Whether the bytes of `bytes` from `at` on begin with the three given ones.
fn three_at(bytes: &[u8], at: usize, first: u8, second: u8, third: u8) -> (same: bool)
    requires
        at + 3 <= bytes.len(),
    ensures
        same == (bytes@.subrange(at as int, at + 3) == seq![first, second, third]),
{
    let same = bytes[at] == first && bytes[at + 1] == second && bytes[at + 2] == third;
    proof {
        let piece = bytes@.subrange(at as int, at + 3);
        let wanted = seq![first, second, third];
        assert(piece[0] == bytes[at as int] && piece[1] == bytes[at + 1] && piece[2] == bytes[at
            + 2]);
        assert(wanted[0] == first && wanted[1] == second && wanted[2] == third);
        if same {
            assert(piece =~= wanted);
        }
    }
    same
}

/// Reads one line of the columnar browser, without its line end.
pub fn parse_column_line(line: &str) -> (record: Result<Option<Browse>, FeedError>)
    ensures
        match record {
            Ok(Some(browse)) => column_record_of(line.spec_bytes()) == Ok::<
                Option<BrowseModel>,
                FeedError,
            >(Some(browse@)),
            Ok(None) => column_record_of(line.spec_bytes()) == Ok::<Option<BrowseModel>, FeedError>(
                None,
            ),
            Err(error) => column_record_of(line.spec_bytes()) == Err::<
                Option<BrowseModel>,
                FeedError,
            >(error),
        },
{
    let bytes = line.as_bytes();
    let n = bytes.len();
    proof {
        let prefix = date_prefix();
        assert(prefix.len() == 5);
        assert(prefix[0] == 0x44 && prefix[1] == 0x41 && prefix[2] == 0x54 && prefix[3] == 0x45
            && prefix[4] == 0x3a);
        if n >= 5 {
            let head = bytes@.subrange(0, 5);
            assert(head[0] == bytes[0] && head[1] == bytes[1] && head[2] == bytes[2] && head[3]
                == bytes[3] && head[4] == bytes[4]);
            if bytes[0] == 0x44 && bytes[1] == 0x41 && bytes[2] == 0x54 && bytes[3] == 0x45
                && bytes[4] == 0x3a {
                assert(head =~= prefix);
            }
        }
    }
    if n >= 5 && bytes[0] == 0x44 && bytes[1] == 0x41 && bytes[2] == 0x54 && bytes[3] == 0x45
        && bytes[4] == 0x3a {
        return Ok(None);
    }
    if n < NAME_COLUMN {
        return Err(FeedError::MissingField);
    }
    let added = three_at(bytes, MARK_COLUMN, 0x41, 0x64, 0x64);
    let removed = three_at(bytes, MARK_COLUMN, 0x52, 0x6d, 0x76);
    if !added && !removed {
        return Err(FeedError::UnknownMark);
    }
    if !line.is_char_boundary(NAME_COLUMN) {
        return Err(FeedError::BrokenText);
    }
    proof {
        encode_utf8_valid_utf8(line@);
        is_char_boundary_start_end_of_seq(line.spec_bytes());
    }
    let name = cut(line, NAME_COLUMN, n);
    proof {
        encode_utf8_decode_utf8(name@);
    }
    if added {
        Ok(Some(Browse::Announced { id: name.to_owned() }))
    } else {
        Ok(Some(Browse::Removed { id: name.to_owned() }))
    }
}

/// The byte that ends the reachable name in a resolver's answer.
pub const SPACE: u8 = 0x20;

/// The byte that stands between host and port.
pub const COLON: u8 = 0x3a;

/// The words after which a resolver's answer says where the service is.
pub open spec fn reach_marker() -> Seq<u8> {
    " can be reached at ".spec_bytes()
}

/// `pattern` stands in `bytes` at offset `at`.
pub open spec fn occurs_at(bytes: Seq<u8>, pattern: Seq<u8>, at: int) -> bool {
    0 <= at && at + pattern.len() <= bytes.len() && bytes.subrange(at, at + pattern.len())
        == pattern
}

/// `pattern` stands in `bytes` at `at` and nowhere before.
pub open spec fn first_occurs_at(bytes: Seq<u8>, pattern: Seq<u8>, at: int) -> bool {
    occurs_at(bytes, pattern, at) && forall|j: int| 0 <= j < at ==> !occurs_at(bytes, pattern, j)
}

/// `pattern` stands nowhere in `bytes`.
pub open spec fn occurs_nowhere(bytes: Seq<u8>, pattern: Seq<u8>) -> bool {
    forall|j: int| !occurs_at(bytes, pattern, j)
}

/// The first offset at which `pattern` stands in `bytes`, where it stands
/// anywhere.
pub open spec fn first_occurrence(bytes: Seq<u8>, pattern: Seq<u8>) -> int {
    choose|at: int| first_occurs_at(bytes, pattern, at)
}

/// The first occurrence is the one before which there is none.
pub proof fn lemma_first_occurrence(bytes: Seq<u8>, pattern: Seq<u8>, at: int)
    requires
        first_occurs_at(bytes, pattern, at),
    ensures
        !occurs_nowhere(bytes, pattern),
        first_occurrence(bytes, pattern) == at,
{
    let chosen = first_occurrence(bytes, pattern);
    assert(first_occurs_at(bytes, pattern, chosen));
    if chosen < at {
        assert(!occurs_at(bytes, pattern, chosen));
    } else if at < chosen {
        assert(!occurs_at(bytes, pattern, at));
    }
}

/// The first `end` bytes are the run before the first `stop`: none of them
/// is `stop`, and `stop` or the end of `bytes` follows.
pub open spec fn is_run_before(bytes: Seq<u8>, stop: u8, end: int) -> bool {
    &&& 0 <= end <= bytes.len()
    &&& forall|j: int| 0 <= j < end ==> #[trigger] bytes[j] != stop
    &&& end == bytes.len() || bytes[end] == stop
}

/// The run of bytes before the first `stop`, or all of them without one.
pub open spec fn run_before(bytes: Seq<u8>, stop: u8) -> Seq<u8> {
    bytes.take(choose|end: int| is_run_before(bytes, stop, end))
}

/// There is one run before the first `stop`.
pub proof fn lemma_run_before(bytes: Seq<u8>, stop: u8, end: int)
    requires
        is_run_before(bytes, stop, end),
    ensures
        run_before(bytes, stop) == bytes.take(end),
{
    let chosen = choose|e: int| is_run_before(bytes, stop, e);
    if chosen < end {
        assert(bytes[chosen] != stop);
    } else if end < chosen {
        assert(bytes[end] != stop);
    }
}

/// Where a service can be reached, as a resolver's answer writes it.
#[derive(Debug)]
pub struct Endpoint {
    pub host: String,
    pub port: u16,
}

/// What an `Endpoint` is in contracts.
pub struct EndpointModel {
    pub host: Seq<char>,
    pub port: u16,
}

impl View for Endpoint {
    type V = EndpointModel;

    open spec fn view(&self) -> EndpointModel {
        EndpointModel { host: self.host@, port: self.port }
    }
}

/// What follows the marker at `at`, as host and port: the text up to the
/// next space is read, the host is what stands before its first colon and
/// the port what stands between that colon and the next.
pub open spec fn endpoint_after(bytes: Seq<u8>, at: int) -> Result<EndpointModel, FeedError> {
    let tail = bytes.skip(at + reach_marker().len());
    let head = run_before(tail, SPACE);
    let host = run_before(head, COLON);
    if host.len() == head.len() {
        Err(FeedError::MissingField)
    } else {
        let port = run_before(head.skip(host.len() as int + 1), COLON);
        match port_of(port) {
            Some(port) => Ok(EndpointModel { host: decode_utf8(host), port }),
            None => Err(FeedError::BadPort),
        }
    }
}

/// The host and port that a resolver's answer gives: those that follow the
/// first occurrence of the marker. An answer without the marker lacks a field.
pub open spec fn endpoint_of(bytes: Seq<u8>) -> Result<EndpointModel, FeedError> {
    if occurs_nowhere(bytes, reach_marker()) {
        Err(FeedError::MissingField)
    } else {
        endpoint_after(bytes, first_occurrence(bytes, reach_marker()))
    }
}

/// Where the run before the first `stop` ends, between `from` and `to`.
fn run_end(bytes: &[u8], from: usize, to: usize, stop: u8) -> (end: usize)
    requires
        from <= to <= bytes.len(),
    ensures
        from <= end <= to,
        is_run_before(bytes@.subrange(from as int, to as int), stop, end - from),
        run_before(bytes@.subrange(from as int, to as int), stop) == bytes@.subrange(
            from as int,
            end as int,
        ),
{
    let mut end: usize = from;
    while end < to && bytes[end] != stop
        invariant
            from <= end <= to <= bytes.len(),
            forall|j: int| from <= j < end ==> #[trigger] bytes[j] != stop,
        decreases to - end,
    {
        end += 1;
    }
    proof {
        let piece = bytes@.subrange(from as int, to as int);
        assert forall|j: int| 0 <= j < end - from implies #[trigger] piece[j] != stop by {
            assert(piece[j] == bytes[from + j]);
        }
        if end < to {
            assert(piece[end - from] == bytes[end as int]);
        }
        lemma_run_before(piece, stop, end - from);
        assert(piece.take(end - from) =~= bytes@.subrange(from as int, end as int));
    }
    end
}

/// Whether `pattern` stands in `bytes` at `at`.
fn matches_at(bytes: &[u8], pattern: &[u8], at: usize) -> (same: bool)
    requires
        at + pattern.len() <= bytes.len(),
    ensures
        same == occurs_at(bytes@, pattern@, at as int),
{
    let mut k: usize = 0;
    while k < pattern.len()
        invariant
            k <= pattern.len(),
            at + pattern.len() <= bytes.len(),
            forall|j: int| 0 <= j < k ==> bytes[at + j] == #[trigger] pattern[j],
        decreases pattern.len() - k,
    {
        if bytes[at + k] != pattern[k] {
            proof {
                let piece = bytes@.subrange(at as int, at + pattern.len());
                assert(piece[k as int] == bytes[at + k]);
            }
            return false;
        }
        k += 1;
    }
    proof {
        assert(bytes@.subrange(at as int, at + pattern.len()) =~= pattern@);
    }
    true
}

/// The first offset at which `pattern` stands in `bytes`.
fn find(bytes: &[u8], pattern: &[u8]) -> (found: Option<usize>)
    ensures
        match found {
            Some(at) => first_occurs_at(bytes@, pattern@, at as int),
            None => occurs_nowhere(bytes@, pattern@),
        },
{
    if pattern.len() > bytes.len() {
        return None;
    }
    let last: usize = bytes.len() - pattern.len();
    let mut at: usize = 0;
    loop
        invariant
            at <= last,
            last == bytes.len() - pattern.len(),
            forall|j: int| 0 <= j < at ==> !occurs_at(bytes@, pattern@, j),
        decreases last - at,
    {
        if matches_at(bytes, pattern, at) {
            return Some(at);
        }
        if at == last {
            return None;
        }
        at += 1;
    }
}

/// Reads a resolver's answer: the host and port that follow the first
/// "can be reached at". An answer without these words, or without a colon
/// after the host, lacks a field.
pub fn parse_endpoint_line(line: &str) -> (endpoint: Result<Endpoint, FeedError>)
    ensures
        match endpoint {
            Ok(endpoint) => endpoint_of(line.spec_bytes()) == Ok::<EndpointModel, FeedError>(
                endpoint@,
            ),
            Err(error) => endpoint_of(line.spec_bytes()) == Err::<EndpointModel, FeedError>(error),
        },
{
    let bytes = line.as_bytes();
    let marker = " can be reached at ".as_bytes();
    let n = bytes.len();
    let at = match find(bytes, marker) {
        Some(at) => at,
        None => {
            return Err(FeedError::MissingField);
        },
    };
    proof {
        assert(occurs_at(bytes@, marker@, at as int));
        lemma_first_occurrence(bytes@, marker@, at as int);
        lemma_marker_ends_in_space();
        let piece = bytes@.subrange(at as int, at + marker.len());
        assert(piece[marker.len() - 1] == bytes[at + marker.len() - 1]);
    }
    let start: usize = at + marker.len();
    let head_end = run_end(bytes, start, n, SPACE);
    let host_end = run_end(bytes, start, head_end, COLON);
    proof {
        assert(bytes@.skip(start as int) =~= bytes@.subrange(start as int, n as int));
    }
    if host_end == head_end {
        return Err(FeedError::MissingField);
    }
    let port_end = run_end(bytes, host_end + 1, head_end, COLON);
    proof {
        let head = bytes@.subrange(start as int, head_end as int);
        let host = bytes@.subrange(start as int, host_end as int);
        assert(head.skip(host.len() as int + 1) =~= bytes@.subrange(host_end + 1, head_end as int));
    }
    match read_port(bytes, host_end + 1, port_end) {
        Some(port) => {
            let host = text_between(line, start, host_end);
            Ok(Endpoint { host, port })
        },
        None => Err(FeedError::BadPort),
    }
}

/// The marker is at least one byte long and ends in a space.
proof fn lemma_marker_ends_in_space()
    ensures
        reach_marker().len() > 0,
        reach_marker().last() == SPACE,
{
    reveal_strlit(" can be reached at ");
    let chars = " can be reached at "@;
    assert(chars.len() == 19);
    assert(is_ascii_chars(chars));
    is_ascii_chars_encode_utf8(chars);
}

/// The offset at which an address lookup writes the address.
pub const ADDRESS_COLUMN: usize = 69;

/// The offset after the address column.
pub const ADDRESS_END: usize = 84;

/// The address column of an answer to an address lookup, blanks included.
pub open spec fn address_column_of(bytes: Seq<u8>) -> Result<Seq<char>, FeedError> {
    if bytes.len() < ADDRESS_END {
        Err(FeedError::MissingField)
    } else if !is_char_boundary(bytes, ADDRESS_COLUMN as int) || !is_char_boundary(
        bytes,
        ADDRESS_END as int,
    ) {
        Err(FeedError::BrokenText)
    } else {
        Ok(decode_utf8(bytes.subrange(ADDRESS_COLUMN as int, ADDRESS_END as int)))
    }
}

/// Reads the address column of an answer to an address lookup. The text
/// comes with the blanks that pad the column.
pub fn parse_address_line(line: &str) -> (column: Result<String, FeedError>)
    ensures
        match column {
            Ok(text) => address_column_of(line.spec_bytes()) == Ok::<Seq<char>, FeedError>(text@),
            Err(error) => address_column_of(line.spec_bytes()) == Err::<Seq<char>, FeedError>(
                error,
            ),
        },
{
    if line.as_bytes().len() < ADDRESS_END {
        return Err(FeedError::MissingField);
    }
    if !line.is_char_boundary(ADDRESS_COLUMN) || !line.is_char_boundary(ADDRESS_END) {
        return Err(FeedError::BrokenText);
    }
    let piece = cut(line, ADDRESS_COLUMN, ADDRESS_END);
    proof {
        encode_utf8_decode_utf8(piece@);
    }
    Ok(piece.to_owned())
}

} // verus!
