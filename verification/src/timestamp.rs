//! Instants in UTC, as threads and exported files record them.
use vstd::prelude::*;

verus! {

/// First second that `chrono` can represent (1 January of the year -262143).
pub const MIN_SECONDS: i64 = -8334601228800;

/// Last second that `chrono` can represent (31 December of the year 262142).
pub const MAX_SECONDS: i64 = 8210266876799;

/// First second of the year 0.
pub const FIRST_RFC3339_SECOND: i64 = -62167219200;

/// Last second of the year 9999.
pub const LAST_RFC3339_SECOND: i64 = 253402300799;

/// `secs` whole seconds and `nanos` nanoseconds since the Unix epoch are an instant: a leap second
/// holds a second thousand million nanoseconds, and only the last second of a minute can be one.
pub open spec fn is_instant(secs: i64, nanos: u32) -> bool {
    &&& MIN_SECONDS <= secs <= MAX_SECONDS
    &&& nanos < 1_000_000_000 || (nanos < 2_000_000_000 && (secs as int) % 60 == 59)
}

/// The years whose dates RFC 3339 can write down (0 to 9999).
pub open spec fn in_rfc3339_years(secs: i64) -> bool {
    FIRST_RFC3339_SECOND <= secs <= LAST_RFC3339_SECOND
}

/// The characters of a timestamp's text.
pub open spec fn is_timestamp_char(c: char) -> bool {
    '0' <= c <= '9' || c == '-' || c == '+' || c == ':' || c == '.' || c == 'T' || c == 'Z'
}

/// What `chrono::DateTime::parse_from_rfc3339` reads in a text: seconds and nanoseconds since the
/// Unix epoch.
pub uninterp spec fn rfc3339_instant(s: Seq<char>) -> Option<(i64, u32)>;

/// What `chrono`'s `FromStr` for `DateTime<FixedOffset>` (the relaxed form of RFC 3339 that its
/// deserializer accepts) reads in a text.
pub uninterp spec fn relaxed_instant(s: Seq<char>) -> Option<(i64, u32)>;

/// The text of an instant is made of a few dozen digits and punctuation characters, and for the
/// years that RFC 3339 knows the same instant is read in it.
pub open spec fn has_instant_text(t: (i64, u32)) -> bool {
    let s = instant_text(t.0, t.1);
    &&& 0 < s.len() <= 40
    &&& forall|i: int| 0 <= i < s.len() ==> is_timestamp_char(#[trigger] s[i])
    &&& in_rfc3339_years(t.0) ==> rfc3339_instant(s) == Some(t)
}

/// What `chrono` writes for an instant in UTC.
pub uninterp spec fn instant_text(secs: i64, nanos: u32) -> Seq<char>;

/// Calls `chrono::DateTime::parse_from_rfc3339`. What it reads is a function of the text and lies
/// within the range of instants.
#[verifier::external_body]
fn chrono_parse_rfc3339(s: &str) -> (r: Option<(i64, u32)>)
    ensures
        r == rfc3339_instant(s@),
        r matches Some(t) ==> is_instant(t.0, t.1),
{
    chrono::DateTime::parse_from_rfc3339(s).ok().map(
        |t| (t.timestamp(), t.timestamp_subsec_nanos()),
    )
}

/// Calls the `FromStr` of `chrono::DateTime<FixedOffset>`. What it reads is a function of the text
/// and lies within the range of instants.
#[verifier::external_body]
fn chrono_parse_relaxed(s: &str) -> (r: Option<(i64, u32)>)
    ensures
        r == relaxed_instant(s@),
        r matches Some(t) ==> is_instant(t.0, t.1),
{
    s.parse::<chrono::DateTime<chrono::FixedOffset>>().ok().map(
        |t| (t.timestamp(), t.timestamp_subsec_nanos()),
    )
}

/// Calls `chrono::DateTime::to_rfc3339_opts` for UTC with as many fractional digits as the instant
/// needs, which is also how `chrono` serializes it. The text is a function of the instant, is made
/// of a few dozen digits and punctuation characters, and for the years that RFC 3339 knows
/// `parse_from_rfc3339` reads the same instant back.
#[verifier::external_body]
fn chrono_format(secs: i64, nanos: u32) -> (r: String)
    requires
        is_instant(secs, nanos),
    ensures
        r@ == instant_text(secs, nanos),
        0 < r@.len() <= 40,
        forall|i: int| 0 <= i < r@.len() ==> is_timestamp_char(#[trigger] r@[i]),
        in_rfc3339_years(secs) ==> rfc3339_instant(r@) == Some((secs, nanos)),
{
    chrono::DateTime::from_timestamp(secs, nanos).unwrap().to_rfc3339_opts(
        chrono::SecondsFormat::AutoSi,
        true,
    )
}

/// An instant in UTC.
#[derive(Debug, Clone, Copy, PartialEq, Eq, Hash)]
pub struct Timestamp {
    secs: i64,
    nanos: u32,
}

impl View for Timestamp {
    type V = (i64, u32);

    closed spec fn view(&self) -> (i64, u32) {
        (self.secs, self.nanos)
    }
}

impl Timestamp {
    #[verifier::type_invariant]
    spec fn wf(self) -> bool {
        is_instant(self.secs, self.nanos)
    }

    /// The instant `secs` seconds and `nanos` nanoseconds after the Unix epoch.
    pub fn new(secs: i64, nanos: u32) -> (r: Option<Timestamp>)
        ensures
            r is Some <==> is_instant(secs, nanos),
            r matches Some(t) ==> t@ == (secs, nanos),
    {
        if secs < MIN_SECONDS || secs > MAX_SECONDS {
            return None;
        }
        if nanos < 1_000_000_000 {
            return Some(Timestamp { secs, nanos });
        }
        // Shifted by a multiple of sixty so that the remainder is taken of a positive number.
        let shifted: i64 = secs + 9_000_000_000_000;
        if nanos < 2_000_000_000 && shifted % 60 == 59 {
            Some(Timestamp { secs, nanos })
        } else {
            None
        }
    }

    /// Whole seconds since the Unix epoch.
    pub fn timestamp(&self) -> (r: i64)
        ensures
            r == self@.0,
    {
        self.secs
    }

    /// Nanoseconds since the last whole second.
    pub fn timestamp_subsec_nanos(&self) -> (r: u32)
        ensures
            r == self@.1,
    {
        self.nanos
    }

    /// Reads an RFC 3339 timestamp.
    pub fn parse_rfc3339(s: &str) -> (r: Option<Timestamp>)
        ensures
            opt_instant(r) == rfc3339_instant(s@),
            r is Some <==> rfc3339_instant(s@) is Some,
            r matches Some(t) ==> rfc3339_instant(s@) == Some(t@),
    {
        match chrono_parse_rfc3339(s) {
            Some((secs, nanos)) => Some(Timestamp { secs, nanos }),
            None => None,
        }
    }

    /// Reads a timestamp in the relaxed form that thread documents use.
    pub fn parse_relaxed(s: &str) -> (r: Option<Timestamp>)
        ensures
            opt_instant(r) == relaxed_instant(s@),
            r is Some <==> relaxed_instant(s@) is Some,
            r matches Some(t) ==> relaxed_instant(s@) == Some(t@),
    {
        match chrono_parse_relaxed(s) {
            Some((secs, nanos)) => Some(Timestamp { secs, nanos }),
            None => None,
        }
    }

    /// The text of this instant.
    pub fn to_rfc3339(&self) -> (r: String)
        ensures
            r@ == instant_text(self@.0, self@.1),
            has_instant_text(self@),
    {
        proof {
            use_type_invariant(self);
        }
        chrono_format(self.secs, self.nanos)
    }

    /// Whether this instant is `other` or lies after it.
    pub fn at_or_after(&self, other: &Timestamp) -> (r: bool)
        ensures
            r == not_before(self@, other@),
            r <==> self@.0 > other@.0 || (self@.0 == other@.0 && self@.1 >= other@.1),
    {
        self.secs > other.secs || (self.secs == other.secs && self.nanos >= other.nanos)
    }
}

/// The instant of a timestamp that may be missing.
pub open spec fn opt_instant(t: Option<Timestamp>) -> Option<(i64, u32)> {
    match t {
        Some(t) => Some(t@),
        None => None,
    }
}

/// `a` is `b` or lies after it.
pub open spec fn not_before(a: (i64, u32), b: (i64, u32)) -> bool {
    a.0 > b.0 || (a.0 == b.0 && a.1 >= b.1)
}

/// Instants are totally ordered: of two instants one is not before the other, both ways only if
/// they are the same, and the order is transitive.
pub proof fn law_instants_are_ordered(a: (i64, u32), b: (i64, u32), c: (i64, u32))
    ensures
        not_before(a, b) || not_before(b, a),
        not_before(a, b) && not_before(b, a) ==> a == b,
        not_before(a, b) && not_before(b, c) ==> not_before(a, c),
{
}

/// Later seconds are later, and within a second the nanoseconds decide.
pub proof fn law_order_is_chronological(a: (i64, u32), b: (i64, u32))
    ensures
        a.0 < b.0 ==> not_before(b, a) && !not_before(a, b),
        a.0 == b.0 ==> (not_before(a, b) <==> a.1 >= b.1),
{
}

/// Which seconds and nanoseconds are an instant: nanoseconds of one second, or of a leap second at
/// the end of a minute, within the years that `chrono` knows.
pub proof fn law_instants(secs: i64, nanos: u32)
    ensures
        nanos < 1_000_000_000 ==> (is_instant(secs, nanos) <==> -8334601228800 <= secs
            <= 8210266876799),
        1_000_000_000 <= nanos < 2_000_000_000 ==> (is_instant(secs, nanos) <==> -8334601228800
            <= secs <= 8210266876799 && (secs - 59) % 60 == 0),
        nanos >= 2_000_000_000 ==> !is_instant(secs, nanos),
{
}

/// RFC 3339 writes the years 0 to 9999.
pub proof fn law_rfc3339_years(secs: i64)
    ensures
        in_rfc3339_years(secs) <==> -62167219200 <= secs <= 253402300799,
{
}

/// A timestamp that may be missing: its instant where it is there.
pub proof fn law_opt_instant(t: Option<Timestamp>)
    ensures
        opt_instant(t) is Some <==> t is Some,
        t matches Some(x) ==> opt_instant(t) == Some(x@),
{
}

} // verus!
