//! Found purge targets, and the messages that carry them to the consumer.
use vstd::prelude::*;

use crate::text::{decimal_string, decimal_text};

verus! {

/// How long ago a path was last modified.
#[derive(Clone, Copy, Debug, PartialEq, Eq, Structural)]
pub struct Age {
    pub secs: u64,
    /// Below one second.
    pub nanos: u32,
}

pub const SECS_PER_DAY: u64 = 86400;

pub const NANOS_PER_SEC: u64 = 1_000_000_000;

/// The age in whole days, rounded up.
pub open spec fn days_of(age: Age) -> nat {
    let total = age.secs as nat * NANOS_PER_SEC as nat + age.nanos as nat;
    let day = SECS_PER_DAY as nat * NANOS_PER_SEC as nat;
    ((total + day - 1) / day as int) as nat
}

/// The age in whole days, rounded up.
pub fn ceil_days(age: Age) -> (r: u64)
    requires
        age.nanos < NANOS_PER_SEC,
    ensures
        r == days_of(age),
{
    let whole = age.secs / SECS_PER_DAY;
    let rest = age.secs % SECS_PER_DAY;
    proof {
        let s = age.secs as int;
        let n = age.nanos as int;
        let g = NANOS_PER_SEC as int;
        let day = SECS_PER_DAY as int * g;
        let w = whole as int;
        let q = rest as int;
        assert(s == w * 86400 + q);
        assert(s * g + n + day - 1 == w * day + (q * g + n + day - 1)) by (nonlinear_arith)
            requires
                s == w * 86400 + q,
                day == 86400 * g,
        ;
        assert(0 <= q * g + n + day - 1) by (nonlinear_arith)
            requires
                q >= 0,
                n >= 0,
                g > 0,
                day > 0,
        ;
        if q == 0 && n == 0 {
            assert((q * g + n + day - 1) / day == 0) by (nonlinear_arith)
                requires
                    q == 0,
                    n == 0,
                    day > 0,
            ;
        } else {
            assert(q * g + n + day - 1 >= day) by (nonlinear_arith)
                requires
                    q >= 0,
                    n >= 0,
                    q > 0 || n > 0,
                    g > 0,
                    day == 86400 * g,
            ;
            assert(q * g + n + day - 1 < 2 * day) by (nonlinear_arith)
                requires
                    0 <= q < 86400,
                    0 <= n < g,
                    day == 86400 * g,
            ;
            assert((q * g + n + day - 1) / day == 1) by (nonlinear_arith)
                requires
                    day <= q * g + n + day - 1 < 2 * day,
            ;
        }
        assert((w * day + (q * g + n + day - 1)) / day == w + (q * g + n + day - 1) / day)
            by (nonlinear_arith)
            requires
                day > 0,
                w >= 0,
                q * g + n + day - 1 >= 0,
        ;
    }
    if rest == 0 && age.nanos == 0 {
        whole
    } else {
        whole + 1
    }
}

/// Where a found path stands in its removal.
#[derive(Clone, Copy, Debug, PartialEq, Eq, Structural)]
pub enum PathState {
    Normal,
    StartDeleting,
    Deleted,
}

/// A purge target found by the walker.
#[derive(Debug)]
pub struct PathItem {
    /// Absolute path.
    pub path: String,
    /// Path relative to the scan root.
    pub relative_path: String,
    /// The rule that matched.
    pub rule_id: String,
    pub time: Option<Age>,
    pub time_text: String,
    pub size: Option<u64>,
    pub size_text: String,
    pub state: PathState,
}

/// Text for an age: whole days rounded up, then `d`.
pub open spec fn age_text(time: Option<Age>) -> Seq<char> {
    match time {
        Some(a) => decimal_text(days_of(a)) + seq!['d'],
        None => Seq::empty(),
    }
}

/// Text for a size, empty when it is unknown.
pub open spec fn size_label(size: Option<u64>) -> Seq<char> {
    match size {
        Some(s) => size_text(s),
        None => Seq::empty(),
    }
}

impl PathItem {
    /// A newly found target, not yet being removed.
    pub fn new(
        path: String,
        relative_path: String,
        rule_id: &str,
        time: Option<Age>,
        size: Option<u64>,
    ) -> (r: PathItem)
        requires
            time matches Some(a) ==> a.nanos < NANOS_PER_SEC,
        ensures
            r.path == path,
            r.relative_path == relative_path,
            r.rule_id@ == rule_id@,
            r.time == time,
            r.time_text@ == age_text(time),
            r.size == size,
            r.size_text@ == size_label(size),
            r.state == PathState::Normal,
    {
        let size_text = match size {
            Some(s) => human_readable_folder_size(s),
            None => String::new(),
        };
        let time_text = match time {
            Some(a) => {
                let mut t = decimal_string(ceil_days(a));
                t.append("d");
                proof {
                    reveal_strlit("d");
                }
                t
            },
            None => String::new(),
        };
        PathItem {
            path,
            relative_path,
            rule_id: rule_id.to_owned(),
            time,
            time_text,
            size,
            size_text,
            state: PathState::Normal,
        }
    }
}

/// The messages between the walker, the deletion workers and the consumer.
#[derive(Debug)]
pub enum Message {
    AddPath(PathItem),
    /// The absolute path that was removed.
    SetPathDeleted(String),
    PutError(String),
    DoneSearch,
}

/// `q + rem / d` rounded to the nearest whole number, ties to even.
pub open spec fn round_half_even(q: nat, rem: nat, d: nat) -> nat {
    if 2 * rem > d {
        q + 1
    } else if 2 * rem == d && q % 2 == 1 {
        q + 1
    } else {
        q
    }
}

/// The suffix letter of unit `k` (1 = K ... 4 = T).
pub open spec fn unit_letter(k: nat) -> char {
    if k == 4 { 'T' } else if k == 3 { 'G' } else if k == 2 { 'M' } else { 'K' }
}

pub open spec fn unit_size(k: nat) -> nat {
    if k == 4 {
        1024 * 1024 * 1024 * 1024
    } else if k == 3 {
        1024 * 1024 * 1024
    } else if k == 2 {
        1024 * 1024
    } else {
        1024
    }
}

/// The largest unit, 4 (T) down to 1 (K), that `size` reaches; 0 for none.
pub open spec fn unit_for(size: u64) -> nat {
    if size >= unit_size(4) {
        4
    } else if size >= unit_size(3) {
        3
    } else if size >= unit_size(2) {
        2
    } else if size >= unit_size(1) {
        1
    } else {
        0
    }
}

/// `size` in tenths of unit `k`, rounded to the nearest tenth, ties to even.
pub open spec fn tenths(size: u64, k: nat) -> nat {
    let m = unit_size(k);
    round_half_even(size as nat * 10 / m, size as nat * 10 % m, m)
}

/// A size as people read it: in the largest unit it reaches, with one
/// decimal below ten units (`1.5K`, `12M`, `1023`).
pub open spec fn size_text(size: u64) -> Seq<char> {
    let k = unit_for(size);
    if k == 0 {
        decimal_text(size as nat)
    } else if size as nat / unit_size(k) < 10 {
        decimal_text(tenths(size, k) / 10) + seq!['.'] + decimal_text(tenths(size, k) % 10)
            + seq![unit_letter(k)]
    } else {
        decimal_text(size as nat / unit_size(k)) + seq![unit_letter(k)]
    }
}

fn unit_str(k: u64) -> (r: &'static str)
    requires
        1 <= k <= 4,
    ensures
        r@ == seq![unit_letter(k as nat)],
{
    proof {
        reveal_strlit("T");
        reveal_strlit("G");
        reveal_strlit("M");
        reveal_strlit("K");
    }
    if k == 4 {
        "T"
    } else if k == 3 {
        "G"
    } else if k == 2 {
        "M"
    } else {
        "K"
    }
}

/// A size as people read it: `1.5K`, `12M`, `1023`.
pub fn human_readable_folder_size(size: u64) -> (r: String)
    ensures
        r@ == size_text(size),
{
    let mut k: u64 = 4;
    let mut marker: u64 = 1024 * 1024 * 1024 * 1024;
    while k > 0
        invariant
            k <= 4,
            k > 0 ==> marker == unit_size(k as nat),
            forall|j: nat| k < j <= 4 ==> size < unit_size(j),
        decreases k,
    {
        if size >= marker {
            assert(unit_for(size) == k);
            let mut text;
            if size / marker < 10 {
                let scaled = size as u128 * 10;
                proof {
                    let s = size as int;
                    let m = marker as int;
                    assert(s < 10 * m) by (nonlinear_arith)
                        requires
                            s / m < 10,
                            m > 0,
                            s >= 0,
                    ;
                    assert((s * 10) / m < 100) by (nonlinear_arith)
                        requires
                            s < 10 * m,
                            m > 0,
                            s >= 0,
                    ;
                    assert((s * 10) % m < m) by (nonlinear_arith)
                        requires
                            m > 0,
                            s >= 0,
                    ;
                }
                let q = (scaled / marker as u128) as u64;
                let rem = (scaled % marker as u128) as u64;
                let t = if 2 * (rem as u128) > marker as u128 {
                    q + 1
                } else if 2 * (rem as u128) == marker as u128 && q % 2 == 1 {
                    q + 1
                } else {
                    q
                };
                assert(t == tenths(size, k as nat));
                text = decimal_string(t / 10);
                text.append(".");
                let frac = decimal_string(t % 10);
                text.append(frac.as_str());
                proof {
                    reveal_strlit(".");
                }
            } else {
                text = decimal_string(size / marker);
            }
            text.append(unit_str(k));
            return text;
        }
        k = k - 1;
        if k > 0 {
            marker = marker / 1024;
        }
    }
    assert(unit_for(size) == 0);
    decimal_string(size)
}

/// Characters kept at the start of an elided path.
pub const PATH_PRESERVE_WIDTH: usize = 12;

/// `path` shortened to `width` characters (at least 27) by replacing its
/// middle with `...`, keeping its first twelve characters.
pub open spec fn elided(path: Seq<char>, width: nat) -> Seq<char> {
    let w = if width < 2 * PATH_PRESERVE_WIDTH + 3 {
        (2 * PATH_PRESERVE_WIDTH + 3) as nat
    } else {
        width
    };
    if path.len() <= w {
        path
    } else {
        path.subrange(0, PATH_PRESERVE_WIDTH as int) + seq!['.', '.', '.'] + path.subrange(
            path.len() - w + PATH_PRESERVE_WIDTH + 3,
            path.len() as int,
        )
    }
}

/// Shortens `path` to fit `width` characters by eliding its middle.
pub fn truncate_path(path: &str, width: u16) -> (r: String)
    ensures
        r@ == elided(path@, width as nat),
{
    let w: usize = if (width as usize) < 2 * PATH_PRESERVE_WIDTH + 3 {
        2 * PATH_PRESERVE_WIDTH + 3
    } else {
        width as usize
    };
    let len = path.unicode_len();
    if len <= w {
        return path.to_owned();
    }
    let mut out = path.substring_char(0, PATH_PRESERVE_WIDTH).to_owned();
    out.append("...");
    out.append(path.substring_char(len - w + PATH_PRESERVE_WIDTH + 3, len));
    proof {
        reveal_strlit("...");
    }
    assert(out@ =~= elided(path@, width as nat));
    out
}

} // verus!
