//! The shareable text form of a ticket: unpadded base-32 of its canonical
//! bytes, lower-cased on output and read regardless of ASCII case.
use vstd::prelude::*;
use crate::ticket::{parse_ticket, ticket_bytes, DecodeError, Ticket, TicketView};

verus! {

/// The unpadded RFC 4648 base-32 text of `b`.
pub uninterp spec fn base32_of(b: Seq<u8>) -> Seq<char>;

/// A character of the RFC 4648 base-32 alphabet: `A` to `Z`, `2` to `7`.
pub open spec fn is_base32_symbol(c: char) -> bool {
    ('A' <= c && c <= 'Z') || ('2' <= c && c <= '7')
}

pub open spec fn upper_char(c: char) -> char {
    if 'a' <= c && c <= 'z' {
        ((c as u32 - 32) as u8) as char
    } else {
        c
    }
}

pub open spec fn lower_char(c: char) -> char {
    if 'A' <= c && c <= 'Z' {
        ((c as u32 + 32) as u8) as char
    } else {
        c
    }
}

/// `s` with ASCII `a` to `z` mapped to `A` to `Z`, all else unchanged.
pub open spec fn ascii_upper(s: Seq<char>) -> Seq<char> {
    s.map_values(|c: char| upper_char(c))
}

/// `s` with ASCII `A` to `Z` mapped to `a` to `z`, all else unchanged.
pub open spec fn ascii_lower(s: Seq<char>) -> Seq<char> {
    s.map_values(|c: char| lower_char(c))
}

/// The text form of a ticket.
pub open spec fn ticket_text(t: TicketView) -> Seq<char> {
    ascii_lower(base32_of(ticket_bytes(t)))
}

/// `s` spells the canonical bytes of `t`, in any ASCII case.
pub open spec fn names_ticket(s: Seq<char>, t: TicketView) -> bool {
    ascii_upper(s) == base32_of(ticket_bytes(t))
}

/// What reading `s` as ticket text gives: `BadEncoding` where its upper-cased
/// form is no base-32 text, else what its bytes read as.
pub open spec fn reads_as(s: Seq<char>, r: Result<TicketView, DecodeError>) -> bool {
    if exists|b: Seq<u8>| #[trigger] base32_of(b) == ascii_upper(s) {
        forall|b: Seq<u8>| #[trigger]
            base32_of(b) == ascii_upper(s) ==> r == match parse_ticket(b) {
                Some(t) => Ok::<TicketView, DecodeError>(t),
                None => Err(DecodeError::Malformed),
            }
    } else {
        r == Err::<TicketView, DecodeError>(DecodeError::BadEncoding)
    }
}

pub open spec fn ticket_result_view(
    r: Result<Ticket, DecodeError>,
) -> Result<TicketView, DecodeError> {
    match r {
        Ok(t) => Ok(t@),
        Err(e) => Err(e),
    }
}

/// Relies on data_encoding's `BASE32_NOPAD.encode`: the RFC 4648 base-32
/// alphabet, without padding.
#[verifier::external_body]
fn base32_encode(b: &[u8]) -> (r: String)
    ensures
        r@ == base32_of(b@),
        forall|i: int| 0 <= i < r@.len() ==> is_base32_symbol(#[trigger] r@[i]),
{
    data_encoding::BASE32_NOPAD.encode(b)
}

/// Relies on data_encoding's `BASE32_NOPAD.decode`, which is correct
/// (it gives back the bytes that were encoded) and canonical (what it accepts
/// is exactly the encoding of what it returns).
#[verifier::external_body]
fn base32_decode(s: &str) -> (r: Option<Vec<u8>>)
    ensures
        r is Some ==> base32_of(r->Some_0@) == s@,
        forall|b: Seq<u8>| #[trigger] base32_of(b) == s@ ==> r is Some && r->Some_0@ == b,
{
    data_encoding::BASE32_NOPAD.decode(s.as_bytes()).ok()
}

/// Relies on `str::to_ascii_uppercase`.
#[verifier::external_body]
fn to_ascii_upper(s: &str) -> (r: String)
    ensures
        r@ == ascii_upper(s@),
{
    s.to_ascii_uppercase()
}

/// Relies on `str::to_ascii_lowercase`.
#[verifier::external_body]
fn to_ascii_lower(s: &str) -> (r: String)
    ensures
        r@ == ascii_lower(s@),
{
    s.to_ascii_lowercase()
}

proof fn lemma_upper_char(c: char)
    ensures
        upper_char(upper_char(c)) == upper_char(c),
        upper_char(lower_char(c)) == upper_char(c),
        is_base32_symbol(c) ==> upper_char(lower_char(c)) == c,
{
}

/// Upper-casing after either case mapping is the same as upper-casing once.
pub proof fn lemma_ascii_upper_absorbs(s: Seq<char>)
    ensures
        ascii_upper(ascii_upper(s)) == ascii_upper(s),
        ascii_upper(ascii_lower(s)) == ascii_upper(s),
{
    assert forall|i: int| 0 <= i < s.len() implies upper_char(upper_char(s[i])) == upper_char(s[i])
        && upper_char(lower_char(s[i])) == upper_char(s[i]) by {
        lemma_upper_char(s[i]);
    }
    assert(ascii_upper(ascii_upper(s)) =~= ascii_upper(s));
    assert(ascii_upper(ascii_lower(s)) =~= ascii_upper(s));
}

/// Reading text as a ticket gives one result only.
pub proof fn lemma_reads_as_unique(
    s: Seq<char>,
    r1: Result<TicketView, DecodeError>,
    r2: Result<TicketView, DecodeError>,
)
    requires
        reads_as(s, r1),
        reads_as(s, r2),
    ensures
        r1 == r2,
{
    if exists|b: Seq<u8>| #[trigger] base32_of(b) == ascii_upper(s) {
        let b = choose|b: Seq<u8>| #[trigger] base32_of(b) == ascii_upper(s);
        assert(base32_of(b) == ascii_upper(s));
    }
}

/// Any text that spells a ticket reads back as that ticket: in particular
/// the text form of a ticket, so that reading the text form of `t` gives `t`.
pub proof fn lemma_ticket_text_round_trip(
    t: TicketView,
    s: Seq<char>,
    r: Result<TicketView, DecodeError>,
)
    requires
        t.wf(),
        names_ticket(s, t),
        reads_as(s, r),
    ensures
        r == Ok::<TicketView, DecodeError>(t),
{
    let b = ticket_bytes(t);
    assert(base32_of(b) == ascii_upper(s));
    crate::ticket::lemma_ticket_bytes_round_trip(t);
}

/// Reading ticket text ignores ASCII case: `s`, its upper-cased and its
/// lower-cased forms read alike.
pub proof fn lemma_ticket_text_case_insensitive(
    s: Seq<char>,
    r: Result<TicketView, DecodeError>,
    r_upper: Result<TicketView, DecodeError>,
    r_lower: Result<TicketView, DecodeError>,
)
    requires
        reads_as(s, r),
        reads_as(ascii_upper(s), r_upper),
        reads_as(ascii_lower(s), r_lower),
    ensures
        r == r_upper,
        r == r_lower,
{
    lemma_ascii_upper_absorbs(s);
    lemma_reads_as_unique(s, r, r_upper);
    lemma_reads_as_unique(s, r, r_lower);
}

impl Ticket {
    /// The shareable text form: lower-case unpadded base-32 of the canonical bytes.
    pub fn to_text(&self) -> (r: String)
        ensures
            r@ == ticket_text(self@),
            names_ticket(r@, self@),
            self@.wf(),
    {
        let bytes = self.to_bytes();
        let encoded = base32_encode(bytes.as_slice());
        let r = to_ascii_lower(encoded.as_str());
        proof {
            let e = encoded@;
            assert forall|i: int| 0 <= i < e.len() implies upper_char(lower_char(e[i])) == e[i] by {
                lemma_upper_char(e[i]);
            }
            assert(ascii_upper(r@) =~= e);
        }
        r
    }

    /// Reads the text form of a ticket, in any ASCII case.
    pub fn from_text(s: &str) -> (r: Result<Ticket, DecodeError>)
        ensures
            reads_as(s@, ticket_result_view(r)),
    {
        let upper = to_ascii_upper(s);
        match base32_decode(upper.as_str()) {
            None => {
                assert(!exists|b: Seq<u8>| #[trigger] base32_of(b) == ascii_upper(s@));
                Err(DecodeError::BadEncoding)
            },
            Some(bytes) => {
                let r = Ticket::from_bytes(bytes.as_slice());
                assert(base32_of(bytes@) == ascii_upper(s@));
                r
            },
        }
    }
}

impl std::str::FromStr for Ticket {
    type Err = DecodeError;

    fn from_str(s: &str) -> Result<Ticket, DecodeError> {
        Ticket::from_text(s)
    }
}

} // verus!
