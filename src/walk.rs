//! What the walker does with the children of one directory, and the laws
//! that hold of those decisions.
use vstd::prelude::*;

use crate::config::Config;
use crate::matcher::{
    claimed, claims, listed, match_names, match_of_rule, good_match, wins, Checker, Match,
};
use crate::rule::{head, paths_for, Rule};
use crate::text::{contains_str, split, views};

verus! {

/// One child of a directory, as the directory listing gives it.
pub struct Entry {
    pub name: String,
    pub is_dir: bool,
}

/// What to do with one child.
pub enum Decision {
    /// An excluded name: neither reported nor entered.
    Skip,
    /// Not a purge target: walk on into it, if it is a directory.
    Enter,
    /// A purge target under rule `rule_id`: reported, and not entered.
    Purge { rule_id: String, purges: Vec<String> },
}

/// The names in `exclude`.
pub open spec fn excluded(exclude: Seq<String>, n: Seq<char>) -> bool {
    listed(views(exclude), n)
}

/// The names of the children that are not excluded, in listing order: all of
/// them, or only the files when `files_only`.
pub open spec fn kept(entries: Seq<Entry>, exclude: Seq<String>, files_only: bool) -> Seq<Seq<char>>
    decreases entries.len(),
{
    if entries.len() == 0 {
        Seq::empty()
    } else {
        let rest = kept(entries.drop_last(), exclude, files_only);
        let e = entries.last();
        if (!files_only || !e.is_dir) && !excluded(exclude, e.name@) {
            rest.push(e.name@)
        } else {
            rest
        }
    }
}

/// The siblings that may be triggers.
pub open spec fn kept_dirs(entries: Seq<Entry>, exclude: Seq<String>) -> Seq<Seq<char>> {
    kept(entries, exclude, false)
}

/// The sibling files that may fire detectors.
pub open spec fn kept_files(entries: Seq<Entry>, exclude: Seq<String>) -> Seq<Seq<char>> {
    kept(entries, exclude, true)
}

/// `d` is the decision that `config` asks for on child `e`, among `entries`.
pub open spec fn decision_for(config: Config, entries: Seq<Entry>, e: Entry, d: Decision) -> bool {
    let rules = config.rules@;
    let dirs = kept_dirs(entries, config.exclude@);
    let files = kept_files(entries, config.exclude@);
    if excluded(config.exclude@, e.name@) {
        d is Skip
    } else if claimed(rules, dirs, files, e.name@) {
        match d {
            Decision::Purge { rule_id, purges } => exists|i: int|
                #[trigger] wins(rules, dirs, files, i, e.name@) && rule_id@ == rules[i].id_view()
                    && views(purges@) == clear_paths(
                    paths_for(rules[i].purge_paths(), e.name@),
                    config.exclude@,
                ),
            _ => false,
        }
    } else {
        d is Enter
    }
}

/// No segment of purge path `p` after its trigger name is an excluded name.
pub open spec fn tail_clear(exclude: Seq<String>, p: Seq<char>) -> bool {
    forall|j: int| 1 <= j < split(p, '/').len() ==> !excluded(exclude, #[trigger] split(p, '/')[j])
}

/// The purge paths of `paths` whose segments after the trigger name are all
/// not excluded, in order.
pub open spec fn clear_paths(paths: Seq<Seq<char>>, exclude: Seq<String>) -> Seq<Seq<char>>
    decreases paths.len(),
{
    if paths.len() == 0 {
        Seq::empty()
    } else {
        let rest = clear_paths(paths.drop_last(), exclude);
        if tail_clear(exclude, paths.last()) {
            rest.push(paths.last())
        } else {
            rest
        }
    }
}

/// What `clear_paths` keeps comes from `paths` and has a clear tail.
pub proof fn lemma_clear_paths(paths: Seq<Seq<char>>, exclude: Seq<String>)
    ensures
        forall|j: int|
            0 <= j < clear_paths(paths, exclude).len() ==> tail_clear(
                exclude,
                #[trigger] clear_paths(paths, exclude)[j],
            ) && exists|q: int| 0 <= q < paths.len() && paths[q] == clear_paths(paths, exclude)[j],
    decreases paths.len(),
{
    if paths.len() > 0 {
        let init = paths.drop_last();
        lemma_clear_paths(init, exclude);
        let rest = clear_paths(init, exclude);
        let all = clear_paths(paths, exclude);
        assert forall|j: int| 0 <= j < all.len() implies tail_clear(exclude, #[trigger] all[j])
            && exists|q: int| 0 <= q < paths.len() && paths[q] == all[j] by {
            if j < rest.len() {
                assert(all[j] == rest[j]);
                let q = choose|q: int| 0 <= q < init.len() && init[q] == rest[j];
                assert(paths[q] == init[q]);
            } else {
                assert(paths[paths.len() - 1] == all[j]);
            }
        }
    }
}

/// Whether every segment of `purge` after its trigger name is not excluded.
fn tail_is_clear(exclude: &Vec<String>, purge: &String) -> (r: bool)
    ensures
        r == tail_clear(exclude@, purge@),
{
    let segments = crate::scan::purge_tail(purge.as_str());
    let ghost parts = split(purge@, '/');
    proof {
        crate::text::lemma_split_nonempty(purge@, '/', Seq::empty());
        assert(views(segments@).len() == segments@.len());
    }
    let mut j: usize = 0;
    while j < segments.len()
        invariant
            views(segments@) == parts.drop_first(),
            parts == split(purge@, '/'),
            parts.len() == segments@.len() + 1,
            j <= segments@.len(),
            forall|q: int| 1 <= q < j + 1 ==> !excluded(exclude@, #[trigger] parts[q]),
        decreases segments@.len() - j,
    {
        let hit = contains_str(exclude, segments[j].as_str());
        assert(parts[j + 1] == views(segments@)[j as int]);
        assert(views(segments@)[j as int] == segments@[j as int]@);
        if hit {
            proof {
                let k = choose|k: int| 0 <= k < exclude@.len() && #[trigger] exclude@[k]@ == segments@[j as int]@;
                assert(views(exclude@)[k] == parts[j + 1]);
                assert(excluded(exclude@, parts[j + 1]));
            }
            return false;
        }
        proof {
            if excluded(exclude@, parts[j + 1]) {
                let k = choose|k: int| 0 <= k < views(exclude@).len() && views(exclude@)[k] == parts[j + 1];
                assert(exclude@[k]@ == segments@[j as int]@);
            }
        }
        j = j + 1;
    }
    true
}

/// The purge paths of `paths` whose tails avoid `exclude`.
fn drop_excluded_tails(exclude: &Vec<String>, paths: &Vec<String>) -> (r: Vec<String>)
    ensures
        views(r@) == clear_paths(views(paths@), exclude@),
{
    let mut out: Vec<String> = Vec::new();
    let mut i: usize = 0;
    assert(views(paths@).subrange(0, 0) =~= Seq::<Seq<char>>::empty());
    while i < paths.len()
        invariant
            i <= paths@.len(),
            views(out@) == clear_paths(views(paths@).subrange(0, i as int), exclude@),
        decreases paths@.len() - i,
    {
        let ghost pre = views(paths@).subrange(0, i as int);
        assert(views(paths@).subrange(0, i + 1).drop_last() == pre);
        assert(views(paths@).subrange(0, i + 1).last() == paths@[i as int]@);
        if tail_is_clear(exclude, &paths[i]) {
            let ghost before = views(out@);
            out.push(paths[i].clone());
            assert(views(out@) =~= before.push(paths@[i as int]@));
        }
        i = i + 1;
    }
    assert(views(paths@).subrange(0, paths@.len() as int) == views(paths@));
    out
}

proof fn lemma_kept(entries: Seq<Entry>, exclude: Seq<String>, files_only: bool, n: Seq<char>)
    ensures
        listed(kept(entries, exclude, files_only), n) <==> exists|k: int|
            0 <= k < entries.len() && (!files_only || !(#[trigger] entries[k]).is_dir) && entries[k].name@ == n
                && !excluded(exclude, n),
    decreases entries.len(),
{
    let s = kept(entries, exclude, files_only);
    if entries.len() > 0 {
        let init = entries.drop_last();
        lemma_kept(init, exclude, files_only, n);
        let rest = kept(init, exclude, files_only);
        let e = entries.last();
        if listed(s, n) {
            let q = choose|q: int| 0 <= q < s.len() && s[q] == n;
            if q < rest.len() {
                assert(listed(rest, n)) by {
                    assert(rest[q] == s[q]);
                }
                let k = choose|k: int|
                    0 <= k < init.len() && (!files_only || !(#[trigger] init[k]).is_dir) && init[k].name@ == n
                        && !excluded(exclude, n);
                assert(entries[k] == init[k]);
            } else {
                assert(entries[entries.len() - 1] == e);
            }
        }
        if exists|k: int|
            0 <= k < entries.len() && (!files_only || !(#[trigger] entries[k]).is_dir) && entries[k].name@ == n
                && !excluded(exclude, n) {
            let k = choose|k: int|
                0 <= k < entries.len() && (!files_only || !(#[trigger] entries[k]).is_dir) && entries[k].name@
                    == n && !excluded(exclude, n);
            if k < init.len() {
                assert(init[k] == entries[k]);
                let q = choose|q: int| 0 <= q < rest.len() && rest[q] == n;
                if (!files_only || !e.is_dir) && !excluded(exclude, e.name@) {
                    assert(s[q] == rest[q]);
                }
            } else {
                assert(entries[k] == e);
                assert(s[rest.len() as int] == n);
            }
        }
    }
}

/// Every purge path that a rule gives for trigger `n` starts with the segment `n`.
pub proof fn lemma_paths_for_head(paths: Seq<Seq<char>>, n: Seq<char>)
    ensures
        forall|j: int|
            0 <= j < paths_for(paths, n).len() ==> head(#[trigger] paths_for(paths, n)[j]) == n,
    decreases paths.len(),
{
    if paths.len() > 0 {
        lemma_paths_for_head(paths.drop_last(), n);
        let rest = paths_for(paths.drop_last(), n);
        let all = paths_for(paths, n);
        assert forall|j: int| 0 <= j < all.len() implies head(#[trigger] all[j]) == n by {
            if j < rest.len() {
                if head(paths.last()) == n {
                    assert(all[j] == rest[j]);
                }
            }
        }
    }
}

/// A child is purged under a rule id only when, for every rule written with
/// that id that has detectors, one of those detectors matches a sibling file of
/// the same directory that is not excluded.
pub proof fn lemma_purge_has_detected_sibling(
    config: Config,
    entries: Seq<Entry>,
    k: int,
    d: Decision,
)
    requires
        0 <= k < entries.len(),
        decision_for(config, entries, entries[k], d),
        d is Purge,
    ensures
        forall|r: int|
            0 <= r < config.rules@.len() && (#[trigger] config.rules@[r]).id_view() == d->rule_id@
                && config.rules@[r].detectors().len() > 0 ==> exists|f: int|
                0 <= f < entries.len() && !entries[f].is_dir && !excluded(
                    config.exclude@,
                    entries[f].name@,
                ) && config.rules@[r].detector_fires(#[trigger] entries[f].name@),
{
    let rules = config.rules@;
    let files = kept_files(entries, config.exclude@);
    let i = choose|i: int|
        #[trigger] wins(rules, kept_dirs(entries, config.exclude@), files, i, entries[k].name@)
            && d->rule_id@ == rules[i].id_view() && views(d->purges@) == clear_paths(
            paths_for(rules[i].purge_paths(), entries[k].name@),
            config.exclude@,
        );
    assert forall|r: int|
        0 <= r < rules.len() && (#[trigger] rules[r]).id_view() == d->rule_id@
            && rules[r].detectors().len() > 0 implies exists|f: int|
        0 <= f < entries.len() && !entries[f].is_dir && !excluded(config.exclude@, entries[f].name@)
            && rules[r].detector_fires(#[trigger] entries[f].name@) by {
        assert(rules[r].detectors() == rules[i].detectors());
        let q = choose|q: int| 0 <= q < files.len() && rules[i].detector_fires(#[trigger] files[q]);
        let m = files[q];
        assert(listed(files, m));
        lemma_kept(entries, config.exclude@, true, m);
        let f = choose|f: int|
            0 <= f < entries.len() && (!true || !(#[trigger] entries[f]).is_dir) && entries[f].name@
                == m && !excluded(config.exclude@, m);
        assert(rules[r].detector_fires(entries[f].name@));
    }
}

/// A child purged under a rule id is a trigger of every rule written with that
/// id, and every purge path reported for it is one of that rule's paths for the
/// child and starts with the child's name.
pub proof fn lemma_purge_is_trigger(config: Config, entries: Seq<Entry>, k: int, d: Decision)
    requires
        0 <= k < entries.len(),
        decision_for(config, entries, entries[k], d),
        d is Purge,
    ensures
        forall|r: int|
            0 <= r < config.rules@.len() && (#[trigger] config.rules@[r]).id_view() == d->rule_id@
                ==> config.rules@[r].is_trigger(entries[k].name@) && forall|j: int|
                0 <= j < d->purges@.len() ==> exists|q: int|
                    0 <= q < paths_for(config.rules@[r].purge_paths(), entries[k].name@).len()
                        && paths_for(config.rules@[r].purge_paths(), entries[k].name@)[q]
                        == #[trigger] d->purges@[j]@,
        forall|j: int|
            0 <= j < d->purges@.len() ==> head(#[trigger] d->purges@[j]@) == entries[k].name@,
{
    let rules = config.rules@;
    let n = entries[k].name@;
    let i = choose|i: int|
        #[trigger] wins(rules, kept_dirs(entries, config.exclude@), kept_files(entries, config.exclude@), i, n)
            && d->rule_id@ == rules[i].id_view() && views(d->purges@) == clear_paths(
            paths_for(rules[i].purge_paths(), n),
            config.exclude@,
        );
    let ps = paths_for(rules[i].purge_paths(), n);
    lemma_paths_for_head(rules[i].purge_paths(), n);
    lemma_clear_paths(ps, config.exclude@);
    assert forall|j: int| 0 <= j < d->purges@.len() implies head(#[trigger] d->purges@[j]@) == n
        && exists|q: int| 0 <= q < ps.len() && ps[q] == d->purges@[j]@ by {
        assert(views(d->purges@)[j] == d->purges@[j]@);
        let q = choose|q: int| 0 <= q < ps.len() && ps[q] == clear_paths(ps, config.exclude@)[j];
        assert(head(ps[q]) == n);
    }
    assert forall|r: int|
        0 <= r < rules.len() && (#[trigger] rules[r]).id_view() == d->rule_id@ implies rules[r].is_trigger(n)
            && forall|j: int|
            0 <= j < d->purges@.len() ==> exists|q: int|
                0 <= q < paths_for(rules[r].purge_paths(), n).len()
                    && paths_for(rules[r].purge_paths(), n)[q] == #[trigger] d->purges@[j]@ by {
        assert(rules[r].purge_paths() == rules[i].purge_paths());
    }
}

/// An excluded child is never purged nor entered; a purged child is not
/// excluded, and no segment after the trigger name of a purge path reported
/// for it is excluded either.
pub proof fn lemma_excluded_names_avoided(config: Config, entries: Seq<Entry>, k: int, d: Decision)
    requires
        0 <= k < entries.len(),
        decision_for(config, entries, entries[k], d),
    ensures
        excluded(config.exclude@, entries[k].name@) ==> d is Skip,
        d is Purge ==> !excluded(config.exclude@, entries[k].name@) && forall|j: int|
            0 <= j < d->purges@.len() ==> tail_clear(config.exclude@, #[trigger] d->purges@[j]@),
{
    if d is Purge {
        let rules = config.rules@;
        let n = entries[k].name@;
        let i = choose|i: int|
            #[trigger] wins(rules, kept_dirs(entries, config.exclude@), kept_files(entries, config.exclude@), i, n)
                && d->rule_id@ == rules[i].id_view() && views(d->purges@) == clear_paths(
                paths_for(rules[i].purge_paths(), n),
                config.exclude@,
            );
        lemma_clear_paths(paths_for(rules[i].purge_paths(), n), config.exclude@);
        assert forall|j: int| 0 <= j < d->purges@.len() implies tail_clear(config.exclude@, #[trigger] d->purges@[j]@) by {
            assert(views(d->purges@)[j] == d->purges@[j]@);
        }
    }
}

/// A rule with detectors none of which matches a sibling file of a directory
/// causes no purge in that directory: no child is purged under its id.
pub proof fn lemma_undetected_rule_purges_nothing(
    config: Config,
    entries: Seq<Entry>,
    r: int,
    k: int,
    d: Decision,
)
    requires
        0 <= r < config.rules@.len(),
        config.rules@[r].detectors().len() > 0,
        forall|f: int|
            0 <= f < entries.len() && !(#[trigger] entries[f]).is_dir ==> !config.rules@[r].detector_fires(
                entries[f].name@,
            ),
        0 <= k < entries.len(),
        decision_for(config, entries, entries[k], d),
    ensures
        d is Purge ==> d->rule_id@ != config.rules@[r].id_view(),
{
    if d is Purge && d->rule_id@ == config.rules@[r].id_view() {
        lemma_purge_has_detected_sibling(config, entries, k, d);
        let f = choose|f: int|
            0 <= f < entries.len() && !entries[f].is_dir && !excluded(config.exclude@, entries[f].name@)
                && config.rules@[r].detector_fires(#[trigger] entries[f].name@);
        assert(!entries[f].is_dir);
    }
}

/// When two rules both claim a trigger, the later one never wins it: the
/// winner comes no later than the earlier rule.
pub proof fn lemma_first_rule_wins(
    rules: Seq<Rule>,
    dirs: Seq<Seq<char>>,
    files: Seq<Seq<char>>,
    i1: int,
    i2: int,
    n: Seq<char>,
)
    requires
        i1 < i2,
        claims(rules, dirs, files, i1, n),
        claims(rules, dirs, files, i2, n),
    ensures
        !wins(rules, dirs, files, i2, n),
        exists|j: int| j <= i1 && wins(rules, dirs, files, j, n),
    decreases i1,
{
    if forall|j: int| 0 <= j < i1 ==> !claims(rules, dirs, files, j, n) {
        assert(wins(rules, dirs, files, i1, n));
    } else {
        let j = choose|j: int| 0 <= j < i1 && claims(rules, dirs, files, j, n);
        lemma_first_rule_wins(rules, dirs, files, j, i1, n);
    }
}

/// Decides, for each child of one directory, whether to skip it, enter it or
/// report it as a purge target.
pub fn decide_children(config: &Config, entries: &Vec<Entry>) -> (r: Vec<Decision>)
    ensures
        r@.len() == entries@.len(),
        forall|k: int|
            0 <= k < entries@.len() ==> decision_for(*config, entries@, #[trigger] entries@[k], r@[k]),
{
    let mut checker = Checker::new(config);
    let mut i: usize = 0;
    while i < entries.len()
        invariant
            i <= entries@.len(),
            checker.wf(),
            checker.rules() == config.rules@,
            checker.dir_names() == kept_dirs(entries@.subrange(0, i as int), config.exclude@),
            checker.file_names() == kept_files(entries@.subrange(0, i as int), config.exclude@),
        decreases entries@.len() - i,
    {
        let e = &entries[i];
        let ghost pre = entries@.subrange(0, i as int);
        assert(entries@.subrange(0, i + 1).drop_last() == pre);
        assert(entries@.subrange(0, i + 1).last() == *e);
        let skip = contains_str(&config.exclude, e.name.as_str());
        assert(skip == excluded(config.exclude@, e.name@)) by {
            if skip {
                let k = choose|k: int| 0 <= k < config.exclude@.len() && #[trigger] config.exclude@[k]@ == e.name@;
                assert(views(config.exclude@)[k] == e.name@);
            }
            if excluded(config.exclude@, e.name@) {
                let k = choose|k: int| 0 <= k < views(config.exclude@).len() && views(config.exclude@)[k] == e.name@;
                assert(config.exclude@[k]@ == e.name@);
            }
        }
        if !skip {
            if e.is_dir {
                checker.add_dir(e.name.as_str());
            } else {
                checker.check(e.name.as_str());
            }
        }
        i = i + 1;
    }
    assert(entries@.subrange(0, entries@.len() as int) == entries@);
    let ghost rules = config.rules@;
    let ghost dirs = kept_dirs(entries@, config.exclude@);
    let ghost files = kept_files(entries@, config.exclude@);
    let matches = checker.to_matches();
    let mut out: Vec<Decision> = Vec::new();
    let mut i: usize = 0;
    while i < entries.len()
        invariant
            i <= entries@.len(),
            out@.len() == i,
            rules == config.rules@,
            dirs == kept_dirs(entries@, config.exclude@),
            files == kept_files(entries@, config.exclude@),
            forall|k: int| 0 <= k < matches@.len() ==> good_match(rules, dirs, files, #[trigger] matches@[k]),
            forall|n: Seq<char>| #[trigger] claimed(rules, dirs, files, n) ==> listed(match_names(matches@), n),
            forall|k: int| 0 <= k < i ==> decision_for(*config, entries@, #[trigger] entries@[k], out@[k]),
        decreases entries@.len() - i,
    {
        let e = &entries[i];
        let skip = contains_str(&config.exclude, e.name.as_str());
        assert(skip == excluded(config.exclude@, e.name@)) by {
            if skip {
                let k = choose|k: int| 0 <= k < config.exclude@.len() && #[trigger] config.exclude@[k]@ == e.name@;
                assert(views(config.exclude@)[k] == e.name@);
            }
            if excluded(config.exclude@, e.name@) {
                let k = choose|k: int| 0 <= k < views(config.exclude@).len() && views(config.exclude@)[k] == e.name@;
                assert(config.exclude@[k]@ == e.name@);
            }
        }
        let d = if skip {
            Decision::Skip
        } else {
            match find_match(&matches, &e.name) {
                Some(k) => {
                    let m = &matches[k];
                    let rule_id = m.rule_id.clone();
                    let purges = drop_excluded_tails(&config.exclude, &m.purges);
                    proof {
                        assert(good_match(rules, dirs, files, matches@[k as int]));
                        let j = choose|j: int|
                            wins(rules, dirs, files, j, m.name@) && match_of_rule(rules, j, *m);
                        assert(wins(rules, dirs, files, j, e.name@));
                    }
                    Decision::Purge { rule_id, purges }
                },
                None => Decision::Enter,
            }
        };
        proof {
            if !skip {
                if claimed(rules, dirs, files, e.name@) {
                    assert(listed(match_names(matches@), e.name@));
                }
            }
            assert(decision_for(*config, entries@, *e, d));
        }
        out.push(d);
        i = i + 1;
    }
    out
}

/// The match in `matches` for `name`, if any.
fn find_match(matches: &Vec<Match>, name: &String) -> (r: Option<usize>)
    ensures
        r is Some ==> r->0 < matches@.len() && matches@[r->0 as int].name@ == name@,
        r is None ==> !listed(match_names(matches@), name@),
{
    let mut k: usize = 0;
    while k < matches.len()
        invariant
            k <= matches@.len(),
            forall|q: int| 0 <= q < k ==> (#[trigger] matches@[q]).name@ != name@,
        decreases matches@.len() - k,
    {
        if matches[k].name == *name {
            return Some(k);
        }
        k = k + 1;
    }
    assert(!listed(match_names(matches@), name@)) by {
        if listed(match_names(matches@), name@) {
            let q = choose|q: int| 0 <= q < match_names(matches@).len() && match_names(matches@)[q] == name@;
            assert(matches@[q].name@ == name@);
        }
    }
    None
}

} // verus!
