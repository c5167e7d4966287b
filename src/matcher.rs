//! The per-directory decision: which children of one directory are purge
//! targets, and under which rule.
use vstd::prelude::*;

use crate::config::Config;
use crate::rule::{paths_for, Rule};
use crate::text::views;

verus! {

/// `n` is one of `names`.
pub open spec fn listed(names: Seq<Seq<char>>, n: Seq<char>) -> bool {
    exists|k: int| 0 <= k < names.len() && names[k] == n
}

/// Rule `i` may claim triggers here: it has no detector, or one of them matches one of `files`.
pub open spec fn qualifies(rules: Seq<Rule>, files: Seq<Seq<char>>, i: int) -> bool {
    ||| rules[i].detectors().len() == 0
    ||| exists|k: int| 0 <= k < files.len() && rules[i].detector_fires(#[trigger] files[k])
}

/// Rule `i` would purge the child directory `n`, given the sibling
/// directories `dirs` and sibling files `files`.
pub open spec fn claims(
    rules: Seq<Rule>,
    dirs: Seq<Seq<char>>,
    files: Seq<Seq<char>>,
    i: int,
    n: Seq<char>,
) -> bool {
    &&& 0 <= i < rules.len()
    &&& listed(dirs, n)
    &&& rules[i].is_trigger(n)
    &&& qualifies(rules, files, i)
}

/// Rule `i` is the first rule, in configured order, that claims `n`.
pub open spec fn wins(
    rules: Seq<Rule>,
    dirs: Seq<Seq<char>>,
    files: Seq<Seq<char>>,
    i: int,
    n: Seq<char>,
) -> bool {
    &&& claims(rules, dirs, files, i, n)
    &&& forall|j: int| 0 <= j < i ==> !claims(rules, dirs, files, j, n)
}

/// Some rule claims `n`.
pub open spec fn claimed(
    rules: Seq<Rule>,
    dirs: Seq<Seq<char>>,
    files: Seq<Seq<char>>,
    n: Seq<char>,
) -> bool {
    exists|i: int| claims(rules, dirs, files, i, n)
}

/// A child directory chosen for purging, with the rule that chose it.
pub struct Match {
    /// The trigger name: the child directory's name.
    pub name: String,
    /// The identifier of the winning rule.
    pub rule_id: String,
    /// The purge paths of that rule for this trigger.
    pub purges: Vec<String>,
}

/// `m` is what rule `i` yields for trigger `m.name`.
pub open spec fn match_of_rule(rules: Seq<Rule>, i: int, m: Match) -> bool {
    &&& m.rule_id@ == rules[i].id_view()
    &&& views(m.purges@) == paths_for(rules[i].purge_paths(), m.name@)
}

/// A trigger seen for one rule.
struct Candidate {
    rule: usize,
    name: String,
}

/// Collects, for one directory, the trigger names and detector hits of each rule.
pub struct Checker<'a> {
    config: &'a Config,
    candidates: Vec<Candidate>,
    fired: Vec<bool>,
    dirs: Ghost<Seq<Seq<char>>>,
    files: Ghost<Seq<Seq<char>>>,
}

impl<'a> Checker<'a> {
    /// The names taken in as possible triggers.
    pub closed spec fn dir_names(&self) -> Seq<Seq<char>> {
        self.dirs@
    }

    /// The names taken in as possible detector hits.
    pub closed spec fn file_names(&self) -> Seq<Seq<char>> {
        self.files@
    }

    pub closed spec fn rules(&self) -> Seq<Rule> {
        self.config.rules@
    }

    pub closed spec fn wf(&self) -> bool {
        &&& self.fired@.len() == self.config.rules@.len()
        &&& forall|k: int|
            0 <= k < self.candidates@.len() ==> (#[trigger] self.candidates@[k]).rule
                < self.config.rules@.len()
        &&& forall|k: int|
            0 <= k < self.candidates@.len() ==> {
                let c = #[trigger] self.candidates@[k];
                listed(self.dirs@, c.name@) && self.config.rules@[c.rule as int].is_trigger(c.name@)
            }
        &&& forall|i: int, n: Seq<char>|
            0 <= i < self.config.rules@.len() && listed(self.dirs@, n)
                && #[trigger] self.config.rules@[i].is_trigger(n) ==> exists|k: int|
                0 <= k < self.candidates@.len() && self.candidates@[k].rule == i
                    && #[trigger] self.candidates@[k].name@ == n
        &&& forall|i: int|
            0 <= i < self.config.rules@.len() ==> (#[trigger] self.fired@[i] <==> exists|k: int|
                0 <= k < self.files@.len() && self.config.rules@[i].detector_fires(
                    #[trigger] self.files@[k],
                ))
    }

    /// A checker for one directory, having seen nothing yet.
    pub fn new(config: &'a Config) -> (r: Checker<'a>)
        ensures
            r.wf(),
            r.rules() == config.rules@,
            r.dir_names() == Seq::<Seq<char>>::empty(),
            r.file_names() == Seq::<Seq<char>>::empty(),
    {
        let mut fired: Vec<bool> = Vec::new();
        let mut i: usize = 0;
        while i < config.rules.len()
            invariant
                i <= config.rules@.len(),
                fired@.len() == i,
                forall|j: int| 0 <= j < i ==> !(#[trigger] fired@[j]),
            decreases config.rules@.len() - i,
        {
            fired.push(false);
            i = i + 1;
        }
        Checker {
            config,
            candidates: Vec::new(),
            fired,
            dirs: Ghost(Seq::empty()),
            files: Ghost(Seq::empty()),
        }
    }

    /// Takes in the sibling directory `name` as a possible trigger.
    pub fn add_dir(&mut self, name: &str)
        requires
            old(self).wf(),
        ensures
            final(self).wf(),
            final(self).rules() == old(self).rules(),
            final(self).dir_names() == old(self).dir_names().push(name@),
            final(self).file_names() == old(self).file_names(),
    {
        let ghost old_dirs = self.dirs@;
        self.dirs = Ghost(self.dirs@.push(name@));
        assert(listed(self.dirs@, name@)) by {
            assert(self.dirs@[old_dirs.len() as int] == name@);
        }
        assert forall|n: Seq<char>| listed(old_dirs, n) implies listed(self.dirs@, n) by {
            let k = choose|k: int| 0 <= k < old_dirs.len() && old_dirs[k] == n;
            assert(self.dirs@[k] == n);
        }
        let ghost before = self.candidates@;
        let mut i: usize = 0;
        while i < self.config.rules.len()
            invariant
                i <= self.config.rules@.len(),
                self.config == old(self).config,
                self.fired@ == old(self).fired@,
                self.files@ == old(self).files@,
                self.dirs@ == old_dirs.push(name@),
                listed(self.dirs@, name@),
                forall|n: Seq<char>| listed(old_dirs, n) ==> listed(self.dirs@, n),
                self.fired@.len() == self.config.rules@.len(),
                self.candidates@.len() >= before.len(),
                forall|k: int| 0 <= k < before.len() ==> self.candidates@[k] == before[k],
                forall|k: int|
                    0 <= k < self.candidates@.len() ==> (#[trigger] self.candidates@[k]).rule
                        < self.config.rules@.len(),
                forall|k: int|
                    0 <= k < self.candidates@.len() ==> {
                        let c = #[trigger] self.candidates@[k];
                        listed(self.dirs@, c.name@) && self.config.rules@[c.rule as int].is_trigger(
                            c.name@,
                        )
                    },
                forall|j: int, n: Seq<char>|
                    0 <= j < self.config.rules@.len() && listed(old_dirs, n)
                        && #[trigger] self.config.rules@[j].is_trigger(n) ==> exists|k: int|
                        0 <= k < before.len() && before[k].rule == j && #[trigger] before[k].name@
                            == n,
                forall|j: int|
                    0 <= j < i && #[trigger] self.config.rules@[j].is_trigger(name@) ==> exists|
                        k: int,
                    |
                        0 <= k < self.candidates@.len() && self.candidates@[k].rule == j
                            && #[trigger] self.candidates@[k].name@ == name@,
            decreases self.config.rules@.len() - i,
        {
            let rule = &self.config.rules[i];
            let ghost old_c = self.candidates@;
            let hit = rule.check_target(name).is_some();
            if hit {
                self.candidates.push(Candidate { rule: i, name: name.to_owned() });
                assert(self.candidates@[old_c.len() as int].name@ == name@);
            }
            assert forall|j: int|
                0 <= j < i + 1 && #[trigger] self.config.rules@[j].is_trigger(name@) implies exists|
                k: int,
            |
                0 <= k < self.candidates@.len() && self.candidates@[k].rule == j
                    && #[trigger] self.candidates@[k].name@ == name@ by {
                if j < i {
                    let k = choose|k: int|
                        0 <= k < old_c.len() && old_c[k].rule == j && #[trigger] old_c[k].name@ == name@;
                    assert(self.candidates@[k] == old_c[k]);
                } else {
                    assert(self.candidates@[old_c.len() as int].rule == j);
                }
            }
            i = i + 1;
        }
        assert forall|j: int, n: Seq<char>|
            0 <= j < self.config.rules@.len() && listed(self.dirs@, n)
                && #[trigger] self.config.rules@[j].is_trigger(n) implies exists|k: int|
            0 <= k < self.candidates@.len() && self.candidates@[k].rule == j
                && #[trigger] self.candidates@[k].name@ == n by {
            let q = choose|q: int| 0 <= q < self.dirs@.len() && self.dirs@[q] == n;
            if q < old_dirs.len() {
                assert(listed(old_dirs, n)) by {
                    assert(old_dirs[q] == n);
                }
                let k = choose|k: int| 0 <= k < before.len() && before[k].rule == j && #[trigger] before[k].name@ == n;
                assert(self.candidates@[k] == before[k]);
            } else {
                assert(n == name@);
            }
        }
    }

    /// Takes in the sibling file `name` as a possible detector hit.
    pub fn add_file(&mut self, name: &str)
        requires
            old(self).wf(),
        ensures
            final(self).wf(),
            final(self).rules() == old(self).rules(),
            final(self).dir_names() == old(self).dir_names(),
            final(self).file_names() == old(self).file_names().push(name@),
    {
        let ghost old_files = self.files@;
        self.files = Ghost(self.files@.push(name@));
        let mut i: usize = 0;
        while i < self.config.rules.len()
            invariant
                i <= self.config.rules@.len(),
                self.config == old(self).config,
                self.candidates@ == old(self).candidates@,
                self.dirs@ == old(self).dirs@,
                self.files@ == old_files.push(name@),
                self.fired@.len() == self.config.rules@.len(),
                forall|j: int|
                    i <= j < self.config.rules@.len() ==> (#[trigger] self.fired@[j] <==> exists|
                        k: int,
                    |
                        0 <= k < old_files.len() && self.config.rules@[j].detector_fires(
                            #[trigger] old_files[k],
                        )),
                forall|j: int|
                    0 <= j < i ==> (#[trigger] self.fired@[j] <==> exists|k: int|
                        0 <= k < self.files@.len() && self.config.rules@[j].detector_fires(
                            #[trigger] self.files@[k],
                        )),
            decreases self.config.rules@.len() - i,
        {
            let hit = self.config.rules[i].check_project(name);
            let was = self.fired[i];
            proof {
                assert(self.files@[old_files.len() as int] == name@);
                assert forall|k: int| 0 <= k < old_files.len() implies self.files@[k] == old_files[k] by {}
                if was {
                    let k = choose|k: int| 0 <= k < old_files.len() && self.config.rules@[i as int].detector_fires(#[trigger] old_files[k]);
                    assert(self.files@[k] == old_files[k]);
                }
                if !hit && !was {
                    assert forall|k: int| 0 <= k < self.files@.len() implies !self.config.rules@[i as int].detector_fires(#[trigger] self.files@[k]) by {
                        if k < old_files.len() {
                            assert(self.files@[k] == old_files[k]);
                        }
                    }
                }
            }
            self.fired.set(i, was || hit);
            i = i + 1;
        }
    }

    /// Takes in the sibling `name` both as a possible trigger and as a possible detector hit.
    pub fn check(&mut self, name: &str)
        requires
            old(self).wf(),
        ensures
            final(self).wf(),
            final(self).rules() == old(self).rules(),
            final(self).dir_names() == old(self).dir_names().push(name@),
            final(self).file_names() == old(self).file_names().push(name@),
    {
        self.add_dir(name);
        self.add_file(name);
    }

    /// The purge targets of this directory: each claimed trigger once, under the
    /// first rule in configured order that claims it.
    pub fn to_matches(&self) -> (r: Vec<Match>)
        requires
            self.wf(),
        ensures
            forall|k: int|
                0 <= k < r@.len() ==> good_match(
                    self.rules(),
                    self.dir_names(),
                    self.file_names(),
                    #[trigger] r@[k],
                ),
            forall|n: Seq<char>|
                #[trigger] claimed(self.rules(), self.dir_names(), self.file_names(), n) ==> listed(
                    match_names(r@),
                    n,
                ),
            forall|k: int, l: int| 0 <= k < l < r@.len() ==> r@[k].name@ != r@[l].name@,
    {
        let ghost rules = self.config.rules@;
        let ghost dirs = self.dirs@;
        let ghost files = self.files@;
        let mut out: Vec<Match> = Vec::new();
        let mut i: usize = 0;
        while i < self.config.rules.len()
            invariant
                self.wf(),
                rules == self.config.rules@,
                dirs == self.dirs@,
                files == self.files@,
                i <= rules.len(),
                forall|k: int|
                    0 <= k < out@.len() ==> good_match(rules, dirs, files, #[trigger] out@[k]),
                forall|j: int, n: Seq<char>|
                    0 <= j < i && #[trigger] claims(rules, dirs, files, j, n) ==> listed(
                        match_names(out@),
                        n,
                    ),
                forall|k: int, l: int| 0 <= k < l < out@.len() ==> out@[k].name@ != out@[l].name@,
            decreases rules.len() - i,
        {
            let qualified = self.config.rules[i].no_detect() || self.fired[i];
            assert(qualified == qualifies(rules, files, i as int));
            if qualified {
                let mut c: usize = 0;
                while c < self.candidates.len()
                    invariant
                        self.wf(),
                        rules == self.config.rules@,
                        dirs == self.dirs@,
                        files == self.files@,
                        i < rules.len(),
                        qualifies(rules, files, i as int),
                        c <= self.candidates@.len(),
                        forall|k: int|
                            0 <= k < out@.len() ==> good_match(rules, dirs, files, #[trigger] out@[k]),
                        forall|j: int, n: Seq<char>|
                            0 <= j < i && #[trigger] claims(rules, dirs, files, j, n) ==> listed(
                                match_names(out@),
                                n,
                            ),
                        forall|q: int|
                            0 <= q < c && (#[trigger] self.candidates@[q]).rule == i ==> listed(
                                match_names(out@),
                                self.candidates@[q].name@,
                            ),
                        forall|k: int, l: int|
                            0 <= k < l < out@.len() ==> out@[k].name@ != out@[l].name@,
                    decreases self.candidates@.len() - c,
                {
                    let rule = &self.config.rules[i];
                    let cand = &self.candidates[c];
                    if cand.rule == i && !contains_name(&out, &cand.name) {
                        let ghost n = cand.name@;
                        assert(claims(rules, dirs, files, i as int, n));
                        assert forall|j: int| 0 <= j < i implies !claims(rules, dirs, files, j, n) by {
                            if claims(rules, dirs, files, j, n) {
                                assert(listed(match_names(out@), n));
                            }
                        }
                        match rule.check_target(cand.name.as_str()) {
                            Some(purges) => {
                                let m = Match {
                                    name: cand.name.clone(),
                                    rule_id: rule.get_id().to_owned(),
                                    purges,
                                };
                                assert(wins(rules, dirs, files, i as int, m.name@));
                                assert(match_of_rule(rules, i as int, m));
                                assert(good_match(rules, dirs, files, m));
                                let ghost old_out = out@;
                                out.push(m);
                                proof {
                                    assert(match_names(out@) == match_names(old_out).push(n));
                                    lemma_listed_push(match_names(old_out), n);
                                    assert forall|k: int| 0 <= k < out@.len() implies good_match(
                                        rules,
                                        dirs,
                                        files,
                                        #[trigger] out@[k],
                                    ) by {
                                        if k < old_out.len() {
                                            assert(out@[k] == old_out[k]);
                                        }
                                    }
                                    assert forall|k: int, l: int|
                                        0 <= k < l < out@.len() implies out@[k].name@ != out@[l].name@ by {
                                        if l == old_out.len() {
                                            assert(match_names(old_out)[k] == old_out[k].name@);
                                        } else {
                                            assert(out@[k] == old_out[k]);
                                            assert(out@[l] == old_out[l]);
                                        }
                                    }
                                }
                            },
                            None => {},
                        }
                    }
                    assert(cand.rule == i ==> listed(match_names(out@), cand.name@));
                    c = c + 1;
                }
                assert forall|n: Seq<char>| #[trigger] claims(rules, dirs, files, i as int, n) implies listed(
                    match_names(out@),
                    n,
                ) by {
                    let k = choose|k: int|
                        0 <= k < self.candidates@.len() && self.candidates@[k].rule == i
                            && #[trigger] self.candidates@[k].name@ == n;
                }
            }
            i = i + 1;
        }
        out
    }
}

/// The trigger names of `ms`, in order.
pub open spec fn match_names(ms: Seq<Match>) -> Seq<Seq<char>> {
    ms.map_values(|m: Match| m.name@)
}

/// `m` is the match that the first rule claiming `m.name` yields.
pub open spec fn good_match(
    rules: Seq<Rule>,
    dirs: Seq<Seq<char>>,
    files: Seq<Seq<char>>,
    m: Match,
) -> bool {
    exists|i: int| wins(rules, dirs, files, i, m.name@) && match_of_rule(rules, i, m)
}

proof fn lemma_listed_push(s: Seq<Seq<char>>, x: Seq<char>)
    ensures
        listed(s.push(x), x),
        forall|n: Seq<char>| listed(s, n) ==> listed(s.push(x), n),
{
    assert(s.push(x)[s.len() as int] == x);
    assert forall|n: Seq<char>| listed(s, n) implies listed(s.push(x), n) by {
        let k = choose|k: int| 0 <= k < s.len() && s[k] == n;
        assert(s.push(x)[k] == n);
    }
}

/// Whether some match in `out` is for `name`.
fn contains_name(out: &Vec<Match>, name: &String) -> (r: bool)
    ensures
        r == listed(match_names(out@), name@),
{
    let mut k: usize = 0;
    while k < out.len()
        invariant
            k <= out@.len(),
            forall|q: int| 0 <= q < k ==> (#[trigger] out@[q]).name@ != name@,
        decreases out@.len() - k,
    {
        if out[k].name == *name {
            assert(match_names(out@)[k as int] == name@);
            return true;
        }
        k = k + 1;
    }
    assert(!listed(match_names(out@), name@)) by {
        if listed(match_names(out@), name@) {
            let q = choose|q: int| 0 <= q < match_names(out@).len() && match_names(out@)[q] == name@;
            assert(out@[q].name@ == name@);
        }
    }
    false
}

} // verus!
