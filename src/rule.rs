//! A rule: which directories to purge, and which sibling files detect the project.
use vstd::prelude::*;

use crate::error::ConfigError;
use crate::pattern::{glob_matches, glob_valid, Detector};
use crate::text::{
    before_first, find_char, first_index, has_char, split, split_on, trim, trim_str, views,
};

verus! {

/// The purge list of rule string `s`: all of it, or what precedes the first `@`, trimmed.
pub open spec fn purge_text(s: Seq<char>) -> Seq<char> {
    if has_char(s, '@') {
        trim(s.subrange(0, first_index(s, '@')))
    } else {
        s
    }
}

/// The detector list of rule string `s`: what follows the first `@`, trimmed.
pub open spec fn detect_text(s: Seq<char>) -> Seq<char> {
    if has_char(s, '@') {
        trim(s.subrange(first_index(s, '@') + 1, s.len() as int))
    } else {
        Seq::empty()
    }
}

/// The purge paths that rule string `s` names, in order.
pub open spec fn purge_list(s: Seq<char>) -> Seq<Seq<char>> {
    split(purge_text(s), ',')
}

/// The detector globs that rule string `s` names, in order; none when the list is empty.
pub open spec fn detect_list(s: Seq<char>) -> Seq<Seq<char>> {
    if detect_text(s).len() == 0 {
        Seq::empty()
    } else {
        split(detect_text(s), ',')
    }
}

/// `s` is a rule string that parses: its purge list is not empty and every
/// detector is a well-formed glob.
pub open spec fn rule_valid(s: Seq<char>) -> bool {
    &&& purge_text(s).len() > 0
    &&& forall|i: int| 0 <= i < detect_list(s).len() ==> glob_valid(#[trigger] detect_list(s)[i])
}

/// The trigger name of a purge path: its first segment.
pub open spec fn head(path: Seq<char>) -> Seq<char> {
    before_first(path, '/')
}

/// The purge paths of `paths` whose trigger name is `name`, in order.
pub open spec fn paths_for(paths: Seq<Seq<char>>, name: Seq<char>) -> Seq<Seq<char>>
    decreases paths.len(),
{
    if paths.len() == 0 {
        Seq::empty()
    } else {
        let rest = paths_for(paths.drop_last(), name);
        if head(paths.last()) == name {
            rest.push(paths.last())
        } else {
            rest
        }
    }
}

/// A parsed rule; immutable once built.
pub struct Rule {
    id: String,
    purges: Vec<String>,
    heads: Vec<String>,
    detects: Vec<Detector>,
}

impl Rule {
    #[verifier::type_invariant]
    spec fn well_formed(self) -> bool {
        &&& self.heads@.len() == self.purges@.len()
        &&& self.purges@.len() > 0
        &&& forall|i: int|
            0 <= i < self.purges@.len() ==> #[trigger] self.heads@[i]@ == head(self.purges@[i]@)
        &&& views(self.purges@) == purge_list(self.id@)
        &&& self.detects@.map_values(|d: Detector| d.source()) == detect_list(self.id@)
    }

    /// The rule string as it was written.
    pub closed spec fn id_view(&self) -> Seq<char> {
        self.id@
    }

    /// The purge paths, in the order written: all determined by the rule string.
    pub open spec fn purge_paths(&self) -> Seq<Seq<char>> {
        purge_list(self.id_view())
    }

    /// The detector globs, in the order written: all determined by the rule string.
    pub open spec fn detectors(&self) -> Seq<Seq<char>> {
        detect_list(self.id_view())
    }

    /// `name` is a trigger name of this rule.
    pub open spec fn is_trigger(&self, name: Seq<char>) -> bool {
        paths_for(self.purge_paths(), name).len() > 0
    }

    /// Some detector of this rule matches `name`.
    pub open spec fn detector_fires(&self, name: Seq<char>) -> bool {
        exists|i: int| 0 <= i < self.detectors().len() && glob_matches(#[trigger] self.detectors()[i], name)
    }

    /// Parses a rule string `purge[,purge]*[@detect[,detect]*]`.
    pub fn parse(s: &str) -> (r: Result<Rule, ConfigError>)
        ensures
            r is Ok <==> rule_valid(s@),
            r is Ok ==> r->Ok_0.id_view() == s@ && r->Ok_0.purge_paths() == purge_list(s@)
                && r->Ok_0.detectors() == detect_list(s@),
            r is Err ==> (r->Err_0 matches ConfigError::InvalidRule(t) && t@ == s@),
    {
        let (purge_str, detect_str) = match find_char(s, '@') {
            Some(k) => {
                let n = s.unicode_len();
                (trim_str(s.substring_char(0, k)), trim_str(s.substring_char(k + 1, n)))
            },
            None => (s, ""),
        };
        proof {
            reveal_strlit("");
        }
        assert(purge_str@ == purge_text(s@));
        assert(detect_str@ == detect_text(s@));
        if purge_str.unicode_len() == 0 {
            return Err(ConfigError::InvalidRule(s.to_owned()));
        }
        let mut detects: Vec<Detector> = Vec::new();
        if detect_str.unicode_len() > 0 {
            let texts = split_on(detect_str, ',');
            let mut i: usize = 0;
            while i < texts.len()
                invariant
                    views(texts@) == detect_list(s@),
                    i <= texts@.len(),
                    detects@.len() == i,
                    forall|j: int| 0 <= j < i ==> glob_valid(#[trigger] detect_list(s@)[j]),
                    forall|j: int| 0 <= j < i ==> (#[trigger] detects@[j]).source() == detect_list(s@)[j],
                decreases texts@.len() - i,
            {
                assert(views(texts@)[i as int] == texts@[i as int]@);
                match Detector::new(texts[i].as_str()) {
                    Some(d) => detects.push(d),
                    None => {
                        return Err(ConfigError::InvalidRule(s.to_owned()));
                    },
                }
                i = i + 1;
            }
            assert(detects@.map_values(|d: Detector| d.source()) =~= detect_list(s@));
        } else {
            assert(detects@.map_values(|d: Detector| d.source()) =~= detect_list(s@));
        }
        let purges = split_on(purge_str, ',');
        let mut heads: Vec<String> = Vec::new();
        let mut i: usize = 0;
        while i < purges.len()
            invariant
                i <= purges@.len(),
                heads@.len() == i,
                forall|j: int| 0 <= j < i ==> #[trigger] heads@[j]@ == head(purges@[j]@),
            decreases purges@.len() - i,
        {
            let p = purges[i].as_str();
            let h = match find_char(p, '/') {
                Some(k) => p.substring_char(0, k),
                None => p,
            };
            heads.push(h.to_owned());
            i = i + 1;
        }
        assert(split(purge_str@, ',').len() > 0) by {
            crate::text::lemma_split_nonempty(purge_str@, ',', Seq::empty());
        }
        Ok(Rule { id: s.to_owned(), purges, heads, detects })
    }

    /// The rule string as it was written.
    pub fn get_id(&self) -> (r: &str)
        ensures
            r@ == self.id_view(),
    {
        self.id.as_str()
    }

    /// The purge paths to remove when a sibling directory called `name` is
    /// present; `None` when `name` is not a trigger of this rule.
    pub fn check_target(&self, name: &str) -> (r: Option<Vec<String>>)
        ensures
            r is Some <==> self.is_trigger(name@),
            r is Some ==> views(r->0@) == paths_for(self.purge_paths(), name@),
    {
        proof {
            use_type_invariant(self);
        }
        let name = name.to_owned();
        let mut out: Vec<String> = Vec::new();
        let mut i: usize = 0;
        while i < self.purges.len()
            invariant
                i <= self.purges@.len(),
                self.heads@.len() == self.purges@.len(),
                forall|j: int|
                    0 <= j < self.purges@.len() ==> #[trigger] self.heads@[j]@ == head(self.purges@[j]@),
                views(self.purges@) == self.purge_paths(),
                views(out@) == paths_for(self.purge_paths().subrange(0, i as int), name@),
            decreases self.purges@.len() - i,
        {
            assert(self.purge_paths().subrange(0, i + 1).drop_last() == self.purge_paths().subrange(0, i as int));
            assert(self.purge_paths()[i as int] == self.purges@[i as int]@);
            if self.heads[i] == name {
                let ghost before = views(out@);
                out.push(self.purges[i].clone());
                assert(views(out@) == before.push(self.purges@[i as int]@));
            }
            i = i + 1;
        }
        assert(self.purge_paths().subrange(0, self.purges@.len() as int) == self.purge_paths());
        if out.len() > 0 {
            Some(out)
        } else {
            None
        }
    }

    /// The rule has no detector: the trigger directory alone is enough.
    pub fn no_detect(&self) -> (r: bool)
        ensures
            r == (self.detectors().len() == 0),
    {
        proof {
            use_type_invariant(self);
            assert(self.detects@.map_values(|d: Detector| d.source()).len() == self.detects@.len());
        }
        self.detects.len() == 0
    }

    /// Some detector of this rule matches the sibling file name `name`.
    pub fn check_project(&self, name: &str) -> (r: bool)
        ensures
            r == self.detector_fires(name@),
    {
        proof {
            use_type_invariant(self);
        }
        let ghost sources = self.detects@.map_values(|d: Detector| d.source());
        assert(sources.len() == self.detects@.len());
        let mut i: usize = 0;
        while i < self.detects.len()
            invariant
                i <= self.detects@.len(),
                sources == self.detectors(),
                sources == self.detects@.map_values(|d: Detector| d.source()),
                sources.len() == self.detects@.len(),
                forall|j: int| 0 <= j < i ==> !glob_matches(#[trigger] self.detectors()[j], name@),
            decreases self.detects@.len() - i,
        {
            assert(sources[i as int] == self.detects@[i as int].source());
            if self.detects[i].matches(name) {
                assert(glob_matches(self.detectors()[i as int], name@));
                return true;
            }
            i = i + 1;
        }
        false
    }
}

impl std::str::FromStr for Rule {
    type Err = ConfigError;

    fn from_str(s: &str) -> Result<Rule, ConfigError> {
        Rule::parse(s)
    }
}

} // verus!
