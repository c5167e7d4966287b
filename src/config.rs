//! The configuration of a scan: its rules, excluded names and filters.
use std::cmp::Ordering;
use vstd::prelude::*;

use crate::error::ConfigError;
use crate::rule::{detect_list, purge_list, rule_valid, Rule};
use crate::size::{parse_size, parse_whole, saturate, size_text_valid, size_value};
use crate::text::{all_digits, decimal_value};

verus! {

/// The comparison that `+`, `-` or nothing in front of a filter value asks for.
pub open spec fn order_of(s: Seq<char>) -> Ordering {
    if s.len() > 0 && s[0] == '+' {
        Ordering::Greater
    } else if s.len() > 0 && s[0] == '-' {
        Ordering::Less
    } else {
        Ordering::Equal
    }
}

/// A filter value without its leading `+` or `-`.
pub open spec fn order_rest(s: Seq<char>) -> Seq<char> {
    if s.len() > 0 && (s[0] == '+' || s[0] == '-') {
        s.drop_first()
    } else {
        s
    }
}

/// Splits a filter value such as `+10` into its comparison and the rest.
pub fn extract_order(value: &str) -> (r: (Ordering, &str))
    ensures
        r.0 == order_of(value@),
        r.1@ == order_rest(value@),
{
    let n = value.unicode_len();
    if n > 0 {
        let c = value.get_char(0);
        if c == '+' {
            return (Ordering::Greater, value.substring_char(1, n));
        } else if c == '-' {
            return (Ordering::Less, value.substring_char(1, n));
        }
    }
    (Ordering::Equal, value)
}

/// `target` stands in relation `order` to `expect`.
pub open spec fn compares(order: Ordering, expect: u64, target: u64) -> bool {
    match order {
        Ordering::Less => target < expect,
        Ordering::Equal => target == expect,
        Ordering::Greater => target > expect,
    }
}

/// Whether `target` is less than, equal to or greater than `expect`, as `order` asks.
pub fn compare(order: Ordering, expect: u64, target: u64) -> (r: bool)
    ensures
        r == compares(order, expect, target),
{
    match order {
        Ordering::Less => target < expect,
        Ordering::Equal => target == expect,
        Ordering::Greater => target > expect,
    }
}

/// The digits of a count, after an optional `+`.
pub open spec fn count_digits(s: Seq<char>) -> Seq<char> {
    if s.len() > 0 && s[0] == '+' {
        s.drop_first()
    } else {
        s
    }
}

/// `s` spells a whole number of days that fits a `usize`.
pub open spec fn count_valid(s: Seq<char>) -> bool {
    &&& count_digits(s).len() > 0
    &&& all_digits(count_digits(s))
    &&& decimal_value(count_digits(s)) <= usize::MAX
}

/// Reads `[+]digits` as a `usize`.
pub fn parse_count(s: &str) -> (r: Option<usize>)
    ensures
        r is Some <==> count_valid(s@),
        r is Some ==> r->0 == decimal_value(count_digits(s@)),
{
    let n = s.unicode_len();
    let digits = if n > 0 && s.get_char(0) == '+' {
        s.substring_char(1, n)
    } else {
        s
    };
    if digits.unicode_len() == 0 {
        return None;
    }
    match parse_whole(digits) {
        Some(v) => {
            if v <= usize::MAX as u128 {
                Some(v as usize)
            } else {
                None
            }
        },
        None => None,
    }
}

/// `i` is the first rule of `rules` whose identifier is `id`.
pub open spec fn is_first_rule(rules: Seq<Rule>, id: Seq<char>, i: int) -> bool {
    &&& 0 <= i < rules.len()
    &&& rules[i].id_view() == id
    &&& forall|j: int| 0 <= j < i ==> (#[trigger] rules[j]).id_view() != id
}

/// The rules, excluded names and filters of a scan.
pub struct Config {
    pub rules: Vec<Rule>,
    /// Directory names skipped at every depth.
    pub exclude: Vec<String>,
    /// Keep a match only when its age in whole days compares so to the value.
    pub time: Option<(usize, Ordering)>,
    /// Keep a match only when its size in bytes compares so to the value.
    pub size: Option<(u64, Ordering)>,
}

impl Default for Config {
    fn default() -> (r: Config)
        ensures
            r.rules@.len() == 0,
            r.exclude@.len() == 0,
            r.time is None,
            r.size is None,
    {
        Config { rules: Vec::new(), exclude: Vec::new(), time: None, size: None }
    }
}

impl Config {
    /// Whether the first rule written as `id` has no detector; false when there is none.
    pub fn is_rule_no_detect(&self, id: &str) -> (r: bool)
        ensures
            r == exists|i: int|
                is_first_rule(self.rules@, id@, i) && (#[trigger] self.rules@[i]).detectors().len()
                    == 0,
    {
        let mut i: usize = 0;
        while i < self.rules.len()
            invariant
                i <= self.rules@.len(),
                forall|j: int| 0 <= j < i ==> (#[trigger] self.rules@[j]).id_view() != id@,
            decreases self.rules@.len() - i,
        {
            let rule = &self.rules[i];
            if rule.get_id().to_owned() == id.to_owned() {
                assert(is_first_rule(self.rules@, id@, i as int));
                let r = rule.no_detect();
                assert(forall|k: int| is_first_rule(self.rules@, id@, k) ==> k == i) by {
                    assert forall|k: int| is_first_rule(self.rules@, id@, k) implies k == i by {
                        if k < i {
                            assert(self.rules@[k].id_view() != id@);
                        } else if k > i {
                            assert(self.rules@[i as int].id_view() == id@);
                        }
                    }
                }
                return r;
            }
            i = i + 1;
        }
        false
    }

    /// Parses `value` as a rule and appends it.
    pub fn add_rule(&mut self, value: &str) -> (r: Result<(), ConfigError>)
        ensures
            r is Ok <==> rule_valid(value@),
            r is Ok ==> {
                &&& final(self).rules@.len() == old(self).rules@.len() + 1
                &&& final(self).rules@.subrange(0, old(self).rules@.len() as int) == old(
                    self,
                ).rules@
                &&& final(self).rules@.last().id_view() == value@
                &&& final(self).rules@.last().purge_paths() == purge_list(value@)
                &&& final(self).rules@.last().detectors() == detect_list(value@)
            },
            r is Err ==> (r->Err_0 matches ConfigError::InvalidRule(t) && t@ == value@),
            r is Err ==> final(self).rules@ == old(self).rules@,
            final(self).exclude@ == old(self).exclude@,
            final(self).time == old(self).time,
            final(self).size == old(self).size,
    {
        match Rule::parse(value) {
            Ok(rule) => {
                self.rules.push(rule);
                assert(self.rules@.subrange(0, old(self).rules@.len() as int) == old(self).rules@);
                Ok(())
            },
            Err(e) => Err(e),
        }
    }

    /// Sets the age filter from a value such as `+30` (days).
    pub fn set_time(&mut self, time: &str) -> (r: Result<(), ConfigError>)
        ensures
            r is Ok <==> count_valid(order_rest(time@)),
            r is Ok ==> final(self).time == Some(
                (decimal_value(count_digits(order_rest(time@))) as usize, order_of(time@)),
            ),
            r is Err ==> (r->Err_0 matches ConfigError::InvalidConfig(m) && m@ == "Invalid time value"@),
            r is Err ==> final(self).time == old(self).time,
            final(self).rules@ == old(self).rules@,
            final(self).exclude@ == old(self).exclude@,
            final(self).size == old(self).size,
    {
        let (order, rest) = extract_order(time);
        match parse_count(rest) {
            Some(days) => {
                self.time = Some((days, order));
                Ok(())
            },
            None => Err(ConfigError::InvalidConfig("Invalid time value".to_owned())),
        }
    }

    /// Sets the size filter from a value such as `-1.5G`.
    pub fn set_size(&mut self, size: &str) -> (r: Result<(), ConfigError>)
        ensures
            r is Ok <==> size_text_valid(order_rest(size@)),
            r is Ok ==> final(self).size == Some(
                (saturate(size_value(order_rest(size@))), order_of(size@)),
            ),
            r is Err ==> (r->Err_0 matches ConfigError::InvalidConfig(m) && m@ == "Invalid size value"@),
            r is Err ==> final(self).size == old(self).size,
            final(self).rules@ == old(self).rules@,
            final(self).exclude@ == old(self).exclude@,
            final(self).time == old(self).time,
    {
        let (order, rest) = extract_order(size);
        match parse_size(rest) {
            Some(bytes) => {
                self.size = Some((bytes, order));
                Ok(())
            },
            None => Err(ConfigError::InvalidConfig("Invalid size value".to_owned())),
        }
    }
}

} // verus!
