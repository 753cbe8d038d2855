use vstd::prelude::*;

use crate::text::{i64_to_string, spec_i64_chars, spec_nat_digits, u64_to_string};

verus! {

/// The Unix timestamp, in seconds, that a piece of date text denotes, or
/// nothing where the text is no date. The outside parser computes it from the
/// characters alone, so the result is a function of the text.
pub uninterp spec fn utc_timestamp_of(s: Seq<char>) -> Option<i64>;

/// The placeholder shown when a card's move date cannot be read.
pub const UNKNOWN_HOUR_DIFF: i64 = -999;

/// Relies on chrono's `FromStr for DateTime<Utc>`, which accepts a relaxed
/// RFC 3339 form, and on `DateTime::timestamp`, which counts the non-leap
/// seconds since the Unix epoch; both compute from the text alone.
#[verifier::external_body]
fn parse_utc_timestamp(s: &str) -> (r: Option<i64>)
    ensures
        r == utc_timestamp_of(s@),
{
    match s.parse::<chrono::DateTime<chrono::Utc>>() {
        Ok(dt) => Some(dt.timestamp()),
        Err(_) => None,
    }
}

/// The whole hours from a parsed moment to now, truncated toward zero, or the
/// placeholder where no moment was parsed.
pub open spec fn spec_hours_between(parsed: Option<i64>, now_ts: int) -> int {
    match parsed {
        Option::Some(t) => if now_ts >= t {
            (now_ts - t) / 3600
        } else {
            0 - ((t - now_ts) / 3600)
        },
        Option::None => UNKNOWN_HOUR_DIFF as int,
    }
}

/// The whole hours from a parsed moment to now; the duration is truncated
/// toward zero, as the original hour count was.
pub fn hours_between(parsed: Option<i64>, now_ts: i64) -> (r: i64)
    ensures
        r as int == spec_hours_between(parsed, now_ts as int),
{
    match parsed {
        Option::Some(t) => {
            if now_ts >= t {
                let d: i128 = (now_ts as i128) - (t as i128);
                let h: i128 = d / 3600;
                proof {
                    assert(d == now_ts as int - t as int);
                    assert(h == (now_ts as int - t as int) / 3600);
                    assert(h <= d);
                }
                h as i64
            } else {
                let d: i128 = (t as i128) - (now_ts as i128);
                let h: i128 = d / 3600;
                proof {
                    assert(d == t as int - now_ts as int);
                    assert(h == (t as int - now_ts as int) / 3600);
                    assert(h <= d);
                }
                (-h) as i64
            }
        },
        Option::None => UNKNOWN_HOUR_DIFF,
    }
}

/// The text shown for an hour difference: split into days and hours beyond a
/// day, plain hours otherwise.
pub open spec fn spec_move_diff(h: int) -> Seq<char> {
    if h > 24 {
        spec_nat_digits((h / 24) as nat) + "d"@ + spec_nat_digits((h % 24) as nat) + "h"@
    } else {
        spec_i64_chars(h) + "h"@
    }
}

pub fn format_move_diff(hour_diff: i64) -> (r: String)
    ensures
        r@ == spec_move_diff(hour_diff as int),
{
    if hour_diff > 24 {
        let day_diff: i64 = hour_diff / 24;
        let rem: i64 = hour_diff % 24;
        let mut s = u64_to_string(day_diff as u64);
        s.append("d");
        s.append(u64_to_string(rem as u64).as_str());
        s.append("h");
        proof {
            assert(s@ =~= spec_move_diff(hour_diff as int));
        }
        s
    } else {
        let mut s = i64_to_string(hour_diff);
        s.append("h");
        proof {
            assert(s@ =~= spec_move_diff(hour_diff as int));
        }
        s
    }
}

/// The "moved" cell of a card listing: the hours, or days and hours, since
/// the given moment of last movement, against the given current time.
pub fn move_diff_string(last_moved_at: &str, now_ts: i64) -> (r: String)
    ensures
        r@ == spec_move_diff(spec_hours_between(utc_timestamp_of(last_moved_at@), now_ts as int)),
{
    let parsed = parse_utc_timestamp(last_moved_at);
    let h = hours_between(parsed, now_ts);
    format_move_diff(h)
}

} // verus!
