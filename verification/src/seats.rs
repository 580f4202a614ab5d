//! The seat resource's plain data and pure request logic.
//!
//! Storage access belongs to an outside collaborator; this module owns
//! what can be checked: the record shapes, the response mapping, the
//! query parsing, paging normalization, the existence checks run before
//! a write, and identifier assignment for freshly created seats.

use vstd::prelude::*;

verus! {

use crate::endpoint::spec_i64_dec;
use crate::numerals::{chars_to_string, push_decimal, str_to_chars, dec_digits};
use crate::config::{spec_split_origins, split_origins};

/// A stored seat row.
pub struct SeatRecord {
    pub seat_id: i32,
    pub bus_id: i32,
    pub price: i32,
    pub deleted: bool,
    pub name: String,
}

/// A stored bus row.
pub struct BusRecord {
    pub bus_id: i32,
    pub name: Option<String>,
    pub license_plate: String,
    pub deleted: bool,
}

/// A bus as answered to clients.
pub struct BusResponse {
    pub bus_id: i32,
    pub name: Option<String>,
    pub license_plate: String,
}

/// A seat as answered to clients.
pub struct SeatResponse {
    pub seat_id: i32,
    pub bus_id: i32,
    pub price: i32,
    pub name: String,
    pub bus: Option<BusResponse>,
}

/// A page of seats.
pub struct GetSeatsResponse {
    pub message: String,
    pub size: i32,
    pub offset: i32,
    pub total: i64,
    pub data: Vec<SeatResponse>,
}

/// A plain list of seats with a message.
pub struct SeatListResponse {
    pub message: String,
    pub data: Vec<SeatResponse>,
}

/// A request to create one seat.
pub struct CreateSeatInput {
    pub bus_id: i32,
    pub price: i32,
    pub name: String,
}

/// A request to update one seat.
pub struct UpdateSeatInput {
    pub seat_id: i32,
    pub bus_id: i32,
    pub price: i32,
    pub name: String,
}

/// The paging query of the seat listing.
pub struct GetSeatsQuery {
    pub offset: Option<u64>,
    pub size: Option<u64>,
}

/// The filter query of the ranged seat listing.
pub struct GetSeatsByRangeQuery {
    pub seat_id: Option<String>,
    pub name: Option<String>,
}

/// Why a seat write failed.
pub enum SeatError {
    BusNotFound(i32),
    SeatNotFound(i32),
    Db(String),
}

impl SeatError {
    /// A human-readable description of the failure.
    pub fn message(&self) -> (r: String)
        ensures
            *self matches SeatError::BusNotFound(id) ==> r@ == "Bus with id "@ + spec_i64_dec(
                id as i64,
            ) + " does not exist"@,
            *self matches SeatError::SeatNotFound(id) ==> r@ == "Seat with id "@ + spec_i64_dec(
                id as i64,
            ) + " does not exist"@,
            *self matches SeatError::Db(m) ==> r@ == m@,
    {
        match self {
            SeatError::BusNotFound(id) => {
                let mut s = String::from_str("Bus with id ");
                let rendered = crate::endpoint::i64_to_string(*id as i64);
                s.append(rendered.as_str());
                s.append(" does not exist");
                s
            },
            SeatError::SeatNotFound(id) => {
                let mut s = String::from_str("Seat with id ");
                let rendered = crate::endpoint::i64_to_string(*id as i64);
                s.append(rendered.as_str());
                s.append(" does not exist");
                s
            },
            SeatError::Db(m) => m.clone(),
        }
    }
}

/// The seat response a row maps to, field for field.
pub open spec fn spec_seat_response(s: SeatRecord, b: Option<BusRecord>) -> SeatResponse {
    SeatResponse {
        seat_id: s.seat_id,
        bus_id: s.bus_id,
        price: s.price,
        name: s.name,
        bus: match b {
            Some(bb) => Some(
                BusResponse {
                    bus_id: bb.bus_id,
                    name: bb.name,
                    license_plate: bb.license_plate,
                },
            ),
            None => None,
        },
    }
}

/// Maps one stored row, with its optional bus, to the response shape.
pub fn to_seat_response(s: &SeatRecord, b: Option<&BusRecord>) -> (r: SeatResponse)
    ensures
        r == spec_seat_response(*s, match b {
            Some(bb) => Some(*bb),
            None => None,
        }),
{
    let bus = match b {
        Some(bb) => Some(
            BusResponse {
                bus_id: bb.bus_id,
                name: match &bb.name {
                    Some(n) => Some(n.clone()),
                    None => None,
                },
                license_plate: bb.license_plate.clone(),
            },
        ),
        None => None,
    };
    SeatResponse {
        seat_id: s.seat_id,
        bus_id: s.bus_id,
        price: s.price,
        name: s.name.clone(),
        bus,
    }
}

/// Maps a fetched page of rows to the paged response. The page numbers
/// are echoed back in the narrower wire types when they fit.
pub fn to_get_seats_response(
    rows: &Vec<(SeatRecord, Option<BusRecord>)>,
    total: u64,
    offset: u64,
    size: u64,
) -> (r: GetSeatsResponse)
    requires
        size <= i32::MAX,
        offset <= i32::MAX,
        total <= i64::MAX,
    ensures
        r.message@ == Seq::<char>::empty(),
        r.size == size,
        r.offset == offset,
        r.total == total,
        r.data@.len() == rows@.len(),
        forall|i: int|
            0 <= i < rows@.len() ==> #[trigger] r.data@[i] == spec_seat_response(
                rows@[i].0,
                rows@[i].1,
            ),
{
    let mut data: Vec<SeatResponse> = Vec::new();
    let mut i: usize = 0;
    while i < rows.len()
        invariant
            i <= rows.len(),
            data@.len() == i,
            forall|k: int|
                0 <= k < i ==> #[trigger] data@[k] == spec_seat_response(
                    rows@[k].0,
                    rows@[k].1,
                ),
        decreases rows.len() - i,
    {
        let row = &rows[i];
        data.push(to_seat_response(&row.0, row.1.as_ref()));
        i = i + 1;
    }
    GetSeatsResponse {
        message: String::new(),
        size: size as i32,
        offset: offset as i32,
        total: total as i64,
        data,
    }
}

/// Maps created or updated rows to the listing response.
pub fn to_seat_list_response(models: &Vec<SeatRecord>, message: String) -> (r: SeatListResponse)
    ensures
        r.message == message,
        r.data@.len() == models@.len(),
        forall|i: int|
            0 <= i < models@.len() ==> #[trigger] r.data@[i] == spec_seat_response(
                models@[i],
                None,
            ),
{
    let mut data: Vec<SeatResponse> = Vec::new();
    let mut i: usize = 0;
    while i < models.len()
        invariant
            i <= models.len(),
            data@.len() == i,
            forall|k: int|
                0 <= k < i ==> #[trigger] data@[k] == spec_seat_response(models@[k], None),
        decreases models.len() - i,
    {
        data.push(to_seat_response(&models[i], None));
        i = i + 1;
    }
    SeatListResponse { message, data }
}

/// Normalized paging: a negative offset clamps to zero and a
/// non-positive size falls back to ten.
pub fn normalize_page(offset: i32, size: i32) -> (r: (u64, u64))
    ensures
        r.0 == if offset <= 0 {
            0u64
        } else {
            offset as u64
        },
        r.1 == if size <= 0 {
            10u64
        } else {
            size as u64
        },
{
    let o: u64 = if offset <= 0 {
        0
    } else {
        offset as u64
    };
    let s: u64 = if size <= 0 {
        10
    } else {
        size as u64
    };
    (o, s)
}

/// The names filter of a ranged query: the trimmed, non-empty entries
/// of the comma-separated value.
pub fn parse_name_list(raw: Option<&str>) -> (r: Vec<String>)
    ensures
        r.deep_view() == match crate::extract::opt_view(raw) {
            Some(s) => spec_split_origins(s),
            None => Seq::<Seq<char>>::empty(),
        },
{
    match raw {
        Some(s) => split_origins(s),
        None => Vec::new(),
    }
}

/// One trimmed entry parses as an identifier when it is an optional
/// minus sign and a canonical numeral in range.
pub open spec fn spec_parse_i32(p: Seq<char>) -> Option<i32> {
    if p.len() > 0 && p[0] == '-' {
        match crate::payload::sp_num(p.subrange(1, p.len() as int), 0) {
            Some((v, j)) => if j == p.len() - 1 && v <= 0x8000_0000 {
                Some((-(v as int)) as i32)
            } else {
                None
            },
            None => None,
        }
    } else {
        match crate::payload::sp_num(p, 0) {
            Some((v, j)) => if j == p.len() && v <= 0x7FFF_FFFF {
                Some(v as i32)
            } else {
                None
            },
            None => None,
        }
    }
}

/// The identifiers of a ranged query: each comma-separated entry is
/// trimmed, and the ones that parse as identifiers are kept in order.
pub fn parse_id_list(raw: Option<&str>) -> (r: Vec<i32>)
    ensures
        r@ == match crate::extract::opt_view(raw) {
            Some(s) => spec_id_list(s),
            None => Seq::<i32>::empty(),
        },
{
    let s = match raw {
        Some(s) => s,
        None => {
            return Vec::new();
        },
    };
    let entries = parse_name_list(Some(s));
    proof {
        lemma_id_list_from_entries(s@);
    }
    let mut out: Vec<i32> = Vec::new();
    let mut i: usize = 0;
    while i < entries.len()
        invariant
            i <= entries.len(),
            out@ =~= ids_of_entries(entries.deep_view().subrange(0, i as int)),
        decreases entries.len() - i,
    {
        proof {
            lemma_ids_of_entries_snoc(entries.deep_view(), i as int);
        }
        match parse_entry_i32(&entries[i]) {
            Some(v) => {
                out.push(v);
            },
            None => {},
        }
        proof {
            assert(entries.deep_view()[i as int] == entries@[i as int]@);
        }
        i = i + 1;
    }
    proof {
        assert(entries.deep_view().subrange(0, entries.deep_view().len() as int)
            =~= entries.deep_view());
    }
    out
}

/// The identifiers among a list of entries, in order.
pub open spec fn ids_of_entries(entries: Seq<Seq<char>>) -> Seq<i32>
    decreases entries.len(),
{
    if entries.len() == 0 {
        Seq::empty()
    } else {
        let rest = ids_of_entries(entries.drop_last());
        match spec_parse_i32(entries.last()) {
            Some(v) => rest.push(v),
            None => rest,
        }
    }
}

/// The identifiers a raw ranged query denotes.
pub open spec fn spec_id_list(s: Seq<char>) -> Seq<i32> {
    ids_of_entries(spec_split_origins(s))
}

proof fn lemma_id_list_from_entries(s: Seq<char>)
    ensures
        spec_id_list(s) == ids_of_entries(spec_split_origins(s)),
{
}

proof fn lemma_ids_of_entries_snoc(entries: Seq<Seq<char>>, i: int)
    requires
        0 <= i < entries.len(),
    ensures
        ids_of_entries(entries.subrange(0, i + 1)) == match spec_parse_i32(entries[i]) {
            Some(v) => ids_of_entries(entries.subrange(0, i)).push(v),
            None => ids_of_entries(entries.subrange(0, i)),
        },
{
    let pre = entries.subrange(0, i + 1);
    assert(pre.drop_last() =~= entries.subrange(0, i));
    assert(pre.last() == entries[i]);
}

/// Parses one already-trimmed entry as an identifier.
fn parse_entry_i32(entry: &String) -> (r: Option<i32>)
    ensures
        r == spec_parse_i32(entry@),
{
    let chars = str_to_chars(entry.as_str());
    if chars.len() > 0 && chars[0] == '-' {
        let mut rest: Vec<char> = Vec::new();
        let mut k: usize = 1;
        while k < chars.len()
            invariant
                1 <= k <= chars.len(),
                rest@ =~= chars@.subrange(1, k as int),
            decreases chars.len() - k,
        {
            rest.push(chars[k]);
            proof {
                assert(chars@.subrange(1, k + 1) =~= chars@.subrange(1, k as int) + seq![
                    chars@[k as int],
                ]);
            }
            k = k + 1;
        }
        match crate::payload::parse_number(&rest, 0) {
            Some((v, j)) => {
                if j == rest.len() && v <= 0x8000_0000 {
                    let neg: i64 = -(v as i64);
                    Some(neg as i32)
                } else {
                    None
                }
            },
            None => None,
        }
    } else {
        match crate::payload::parse_number(&chars, 0) {
            Some((v, j)) => {
                if j == chars.len() && v <= 0x7FFF_FFFF {
                    Some(v as i32)
                } else {
                    None
                }
            },
            None => None,
        }
    }
}

/// Whether `ids` holds `x`.
pub open spec fn id_in(ids: Seq<i32>, x: i32) -> bool {
    exists|i: int| 0 <= i < ids.len() && ids[i] == x
}

/// The first requested identifier that is not among the existing ones:
/// the check a write runs before touching storage.
pub fn missing_id(requested: &Vec<i32>, existing: &Vec<i32>) -> (r: Option<i32>)
    ensures
        match r {
            Some(x) => id_in(requested@, x) && !id_in(existing@, x),
            None => forall|i: int|
                0 <= i < requested@.len() ==> id_in(existing@, #[trigger] requested@[i]),
        },
{
    let mut i: usize = 0;
    while i < requested.len()
        invariant
            i <= requested.len(),
            forall|k: int| 0 <= k < i ==> id_in(existing@, #[trigger] requested@[k]),
        decreases requested.len() - i,
    {
        let x = requested[i];
        let mut found = false;
        let mut j: usize = 0;
        while j < existing.len()
            invariant
                j <= existing.len(),
                found ==> id_in(existing@, x),
                !found ==> forall|k: int| 0 <= k < j ==> existing@[k] != x,
            decreases existing.len() - j,
        {
            if existing[j] == x {
                found = true;
            }
            j = j + 1;
        }
        if !found {
            proof {
                assert(requested@[i as int] == x);
            }
            return Some(x);
        }
        i = i + 1;
    }
    None
}

/// Builds the rows a creation writes: fresh sequential identifiers
/// starting after the current maximum, never marked deleted.
pub fn assign_seat_ids(inputs: &Vec<CreateSeatInput>, max_id: i32) -> (r: Vec<SeatRecord>)
    requires
        max_id + inputs@.len() <= i32::MAX,
        max_id >= 0,
    ensures
        r@.len() == inputs@.len(),
        forall|i: int| 0 <= i < r@.len() ==> {
            &&& (#[trigger] r@[i]).seat_id == max_id + 1 + i
            &&& r@[i].bus_id == inputs@[i].bus_id
            &&& r@[i].price == inputs@[i].price
            &&& r@[i].name == inputs@[i].name
            &&& !r@[i].deleted
        },
{
    let mut out: Vec<SeatRecord> = Vec::new();
    let mut i: usize = 0;
    while i < inputs.len()
        invariant
            i <= inputs.len(),
            max_id + inputs@.len() <= i32::MAX,
            max_id >= 0,
            out@.len() == i,
            forall|k: int| 0 <= k < i ==> {
                &&& (#[trigger] out@[k]).seat_id == max_id + 1 + k
                &&& out@[k].bus_id == inputs@[k].bus_id
                &&& out@[k].price == inputs@[k].price
                &&& out@[k].name == inputs@[k].name
                &&& !out@[k].deleted
            },
        decreases inputs.len() - i,
    {
        let input = &inputs[i];
        out.push(SeatRecord {
            seat_id: max_id + 1 + (i as i32),
            bus_id: input.bus_id,
            price: input.price,
            deleted: false,
            name: input.name.clone(),
        });
        i = i + 1;
    }
    out
}

/// The pre-write check of a creation: every referenced bus must
/// exist; the first missing one is reported.
pub fn validate_create(requested_buses: &Vec<i32>, existing_buses: &Vec<i32>) -> (r: Result<
    (),
    SeatError,
>)
    ensures
        r is Ok <==> (forall|i: int|
            0 <= i < requested_buses@.len() ==> id_in(
                existing_buses@,
                #[trigger] requested_buses@[i],
            )),
        r matches Err(e) ==> (e matches SeatError::BusNotFound(id) && id_in(
            requested_buses@,
            id,
        ) && !id_in(existing_buses@, id)),
{
    match missing_id(requested_buses, existing_buses) {
        Some(id) => Err(SeatError::BusNotFound(id)),
        None => Ok(()),
    }
}

/// The pre-write check of an update: every addressed seat must exist
/// (a missing seat is reported first), then every referenced bus.
pub fn validate_update(
    requested_seats: &Vec<i32>,
    existing_seats: &Vec<i32>,
    requested_buses: &Vec<i32>,
    existing_buses: &Vec<i32>,
) -> (r: Result<(), SeatError>)
    ensures
        r is Ok <==> ((forall|i: int|
            0 <= i < requested_seats@.len() ==> id_in(
                existing_seats@,
                #[trigger] requested_seats@[i],
            )) && (forall|i: int|
            0 <= i < requested_buses@.len() ==> id_in(
                existing_buses@,
                #[trigger] requested_buses@[i],
            ))),
        r matches Err(e) ==> (e matches SeatError::SeatNotFound(id) ==> id_in(
            requested_seats@,
            id,
        ) && !id_in(existing_seats@, id)),
        r matches Err(e) ==> (e matches SeatError::BusNotFound(id) ==> id_in(
            requested_buses@,
            id,
        ) && !id_in(existing_buses@, id)),
        r matches Err(e) ==> (e is SeatNotFound || e is BusNotFound),
        (exists|i: int|
            0 <= i < requested_seats@.len() && !id_in(
                existing_seats@,
                #[trigger] requested_seats@[i],
            )) ==> (r matches Err(e) && e is SeatNotFound),
{
    match missing_id(requested_seats, existing_seats) {
        Some(id) => {
            return Err(SeatError::SeatNotFound(id));
        },
        None => {},
    }
    match missing_id(requested_buses, existing_buses) {
        Some(id) => {
            return Err(SeatError::BusNotFound(id));
        },
        None => {},
    }
    Ok(())
}

/// The count messages the seat endpoints answer with.
pub fn count_message(verb: &str, n: u64) -> (r: String)
    ensures
        r@ == verb@ + " "@ + dec_digits(n as nat) + " seat(s)"@,
{
    let mut s = verb.to_owned();
    s.append(" ");
    let mut digits: Vec<char> = Vec::new();
    push_decimal(&mut digits, n);
    let rendered = chars_to_string(&digits);
    s.append(rendered.as_str());
    s.append(" seat(s)");
    s
}

/// The seat RPC surface's state; storage is handed in per call by the
/// adapter, so nothing lives here.
pub struct SeatEndpoint;

impl SeatEndpoint {
    pub fn new() -> (r: Self) {
        SeatEndpoint
    }
}

} // verus!
