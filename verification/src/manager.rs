//! The environment registry: resolving the configuration root, looking a
//! named environment up, and discovering every environment defined under
//! the root. Reading directories, files and ambient variables is the
//! caller's business; the registry takes a snapshot of what was read and
//! makes every decision over it.

use vstd::prelude::*;

use crate::config::{validate_ok, Environment, ValidationPolicy};
use crate::error::CceError;
use crate::parse::{source_map, source_map_val, source_ok, FileSource};
use crate::strutil::{
    ends_with_str, has_suffix, lemma_lex_le_total, lemma_lex_le_trans, lex_le, str_le, trim,
    trim_spec,
};

verus! {

/// The configuration root the manager resolves to, from an ambient
/// snapshot: the override variable when set and non-blank, else the
/// home-derived default, each joined with the fixed subdirectory name.
pub open spec fn resolved_config_dir(xdg: Option<String>, home: Option<String>) -> Option<
    Seq<char>,
> {
    match xdg {
        Some(x) => if trim_spec(x@).len() > 0 {
            Some(x@ + "/cce"@)
        } else {
            home_config_dir(home)
        },
        None => home_config_dir(home),
    }
}

/// The home-derived default configuration root.
pub open spec fn home_config_dir(home: Option<String>) -> Option<Seq<char>> {
    match home {
        Some(h) => Some(h@ + "/.config/cce"@),
        None => None,
    }
}

/// The path a named environment's definition file is expected at.
pub open spec fn env_file_path_spec(dir: Seq<char>, name: Seq<char>) -> Seq<char> {
    dir + "/"@ + name + ".env"@
}

/// One directory entry of the configuration root, with what was read for
/// it: its bare file name, whether it is a regular file, and the source
/// its definition was read under.
pub struct DirEntry {
    /// The entry's file name, without any directory part.
    pub file_name: String,
    /// Whether the entry is a regular file.
    pub is_file: bool,
    /// What was read for the file.
    pub source: FileSource,
}

/// An entry counts as an environment definition: a regular file whose name
/// carries the reserved extension, with a non-empty base name.
pub open spec fn is_candidate(e: DirEntry) -> bool {
    e.is_file && e.file_name@.len() > ".env"@.len() && has_suffix(e.file_name@, ".env"@)
}

/// The environment name a definition file's name derives to.
pub open spec fn env_name_of(file_name: Seq<char>) -> Seq<char> {
    file_name.take(file_name.len() - ".env"@.len())
}

/// A candidate whose source parses and whose mapping passes validation.
pub open spec fn entry_accepted(e: DirEntry, policy: ValidationPolicy) -> bool {
    is_candidate(e) && source_ok(e.source) && validate_ok(source_map_val(e.source), policy)
}

/// The catalog a directory snapshot denotes: for each accepted entry, in
/// directory order, the derived name and the resolved mapping.
pub open spec fn catalog_spec(es: Seq<DirEntry>, policy: ValidationPolicy) -> Seq<
    (Seq<char>, Map<Seq<char>, Seq<char>>),
>
    decreases es.len(),
{
    if es.len() == 0 {
        Seq::empty()
    } else {
        let rest = catalog_spec(es.drop_last(), policy);
        if entry_accepted(es.last(), policy) {
            rest + seq![(env_name_of(es.last().file_name@), source_map_val(es.last().source))]
        } else {
            rest
        }
    }
}

/// How many candidates of the snapshot fail to parse or validate.
pub open spec fn rejected_count(es: Seq<DirEntry>, policy: ValidationPolicy) -> int
    decreases es.len(),
{
    if es.len() == 0 {
        0
    } else {
        rejected_count(es.drop_last(), policy) + if is_candidate(es.last()) && !entry_accepted(
            es.last(),
            policy,
        ) {
            1int
        } else {
            0int
        }
    }
}

/// The names and mappings of a sequence of environments.
pub open spec fn env_views(s: Seq<Environment>) -> Seq<(Seq<char>, Map<Seq<char>, Seq<char>>)> {
    Seq::new(s.len(), |i: int| (s[i].name@, s[i].env_vars@))
}

/// Sorted by name, ascending.
pub open spec fn sorted_by_name(s: Seq<Environment>) -> bool {
    forall|i: int, j: int| 0 <= i < j < s.len() ==> lex_le(s[i].name@, s[j].name@)
}

/// Every environment of the sequence has a well-formed mapping.
pub open spec fn all_wf(s: Seq<Environment>) -> bool {
    forall|i: int| 0 <= i < s.len() ==> (#[trigger] s[i]).env_vars.wf()
}

/// Manages lookup and discovery of environments under one configuration
/// root.
#[derive(Debug)]
pub struct EnvironmentManager {
    config_dir: String,
}

impl View for EnvironmentManager {
    type V = Seq<char>;

    closed spec fn view(&self) -> Seq<char> {
        self.config_dir@
    }
}

impl EnvironmentManager {
    /// Resolve the configuration root from an ambient snapshot: the
    /// override variable when set and non-blank, else the home-derived
    /// default; with neither available, the root cannot be named.
    pub fn new(xdg_config: Option<String>, home: Option<String>) -> (r: Result<
        EnvironmentManager,
        CceError,
    >)
        ensures
            match r {
                Ok(m) => resolved_config_dir(xdg_config, home) == Some(m@),
                Err(e) => resolved_config_dir(xdg_config, home) is None && (e matches
                    CceError::MissingDirectory(p) && p@ == "~"@),
            },
    {
        match xdg_config {
            Some(x) => {
                if !trim(x.as_str()).is_empty() {
                    Ok(EnvironmentManager { config_dir: x.concat("/cce") })
                } else {
                    Self::from_home(home)
                }
            },
            None => Self::from_home(home),
        }
    }

    /// The home-derived default root.
    fn from_home(home: Option<String>) -> (r: Result<EnvironmentManager, CceError>)
        ensures
            match r {
                Ok(m) => home_config_dir(home) == Some(m@),
                Err(e) => home_config_dir(home) is None && (e matches CceError::MissingDirectory(
                    p,
                ) && p@ == "~"@),
            },
    {
        match home {
            Some(h) => Ok(EnvironmentManager { config_dir: h.concat("/.config/cce") }),
            None => Err(CceError::MissingDirectory(String::from_str("~"))),
        }
    }

    /// The configuration root this manager scans.
    pub fn config_dir(&self) -> (r: &str)
        ensures
            r@ == self@,
    {
        self.config_dir.as_str()
    }

    /// The path a named environment's definition file is expected at.
    pub fn env_file_path(&self, name: &str) -> (r: String)
        ensures
            r@ == env_file_path_spec(self@, name@),
    {
        self.config_dir.clone().concat("/").concat(name).concat(".env")
    }

    /// Load one named environment from what was read at its expected path.
    /// An absent file fails with the expected path; otherwise the parser's
    /// and validator's verdicts are surfaced unchanged.
    pub fn load_environment(&self, name: &str, file_exists: bool, src: &FileSource) -> (r: Result<
        Environment,
        CceError,
    >)
        ensures
            match r {
                Ok(env) => {
                    &&& file_exists
                    &&& source_map(*src) matches Some(m)
                    &&& env.env_vars@ == m
                    &&& env.name@ == name@
                    &&& env.env_vars.wf()
                    &&& validate_ok(env.env_vars@, ValidationPolicy::RequireAnyOfTwo)
                },
                Err(e) => if !file_exists {
                    e matches CceError::MissingFile(p) && p@ == env_file_path_spec(self@, name@)
                } else {
                    match source_map(*src) {
                        Some(m) => !validate_ok(m, ValidationPolicy::RequireAnyOfTwo) && (
                        e matches CceError::ValidationFailed(msg) && msg@
                            == crate::config::validate_err_msg(
                            m,
                            ValidationPolicy::RequireAnyOfTwo,
                        )),
                        None => match *src {
                            FileSource::Text(_) => e matches CceError::InvalidFormat(p) && p@
                                == env_file_path_spec(self@, name@),
                            FileSource::ShellDump(o) => e matches CceError::ShellCommandFailed(
                                msg,
                            ) && msg@ == o.stderr@,
                        },
                    }
                },
            },
    {
        let path = self.env_file_path(name);
        if !file_exists {
            return Err(CceError::MissingFile(path));
        }
        Environment::from_source(
            String::from_str(name),
            path.as_str(),
            src,
            ValidationPolicy::RequireAnyOfTwo,
        )
    }

    /// Walk a directory snapshot and resolve each candidate entry: the
    /// environments that parse and validate, in directory order, and one
    /// error per candidate that does not, paired with its file name, for
    /// the caller to report.
    pub fn discover_entries(&self, entries: &Vec<DirEntry>, policy: ValidationPolicy) -> (r: (
        Vec<Environment>,
        Vec<(String, CceError)>,
    ))
        ensures
            env_views(r.0@) == catalog_spec(entries@, policy),
            all_wf(r.0@),
            r.1@.len() == rejected_count(entries@, policy),
    {
        let mut envs: Vec<Environment> = Vec::new();
        let mut failures: Vec<(String, CceError)> = Vec::new();
        let n = entries.len();
        let mut k: usize = 0;
        proof {
            assert(entries@.take(0) =~= Seq::<DirEntry>::empty());
            assert(env_views(envs@) =~= catalog_spec(entries@.take(0), policy));
        }
        while k < n
            invariant
                0 <= k <= n,
                n == entries@.len(),
                env_views(envs@) == catalog_spec(entries@.take(k as int), policy),
                all_wf(envs@),
                failures@.len() == rejected_count(entries@.take(k as int), policy),
            decreases n - k,
        {
            let ghost prefix = entries@.take(k as int);
            let ghost prefix1 = entries@.take(k as int + 1);
            proof {
                assert(prefix1.drop_last() =~= prefix);
                assert(prefix1.last() == entries@[k as int]);
            }
            let entry = &entries[k];
            proof {
                reveal_strlit(".env");
            }
            if entry.is_file && entry.file_name.as_str().unicode_len() > 4 && ends_with_str(
                entry.file_name.as_str(),
                ".env",
            ) {
                let flen = entry.file_name.as_str().unicode_len();
                let name = entry.file_name.as_str().substring_char(0, flen - 4);
                proof {
                    assert(name@ =~= env_name_of(entry.file_name@));
                }
                let path = self.config_dir.clone().concat("/").concat(entry.file_name.as_str());
                match Environment::from_source(
                    String::from_str(name),
                    path.as_str(),
                    &entry.source,
                    policy,
                ) {
                    Ok(env) => {
                        let ghost envs_before = envs@;
                        envs.push(env);
                        proof {
                            let ghost pushed = seq![(env.name@, env.env_vars@)];
                            assert(env_views(envs@) =~= env_views(envs_before) + pushed);
                        }
                    },
                    Err(e) => {
                        failures.push((String::from_str(name), e));
                    },
                }
            } else {
                proof {
                    assert(!is_candidate(entries@[k as int]));
                }
            }
            k += 1;
        }
        proof {
            assert(entries@.take(n as int) =~= entries@);
        }
        (envs, failures)
    }

    /// Sort environments by name, ascending; the result holds the same
    /// environments.
    pub fn sort_environments(mut envs: Vec<Environment>) -> (r: Vec<Environment>)
        requires
            all_wf(envs@),
        ensures
            sorted_by_name(r@),
            all_wf(r@),
            env_views(r@).to_multiset() == env_views(envs@).to_multiset(),
            r@.len() == envs@.len(),
    {
        broadcast use vstd::seq_lib::group_to_multiset_ensures;
        broadcast use vstd::multiset::group_multiset_axioms;

        let ghost orig = envs@;
        let mut out: Vec<Environment> = Vec::new();
        proof {
            assert(env_views(out@) =~= Seq::<(Seq<char>, Map<Seq<char>, Seq<char>>)>::empty());
            assert(env_views(out@).to_multiset().add(env_views(envs@).to_multiset()) =~= env_views(
                orig,
            ).to_multiset());
        }
        while envs.len() > 0
            invariant
                sorted_by_name(out@),
                all_wf(out@),
                all_wf(envs@),
                forall|i: int, j: int|
                    0 <= i < out@.len() && 0 <= j < envs@.len() ==> lex_le(
                        out@[i].name@,
                        envs@[j].name@,
                    ),
                env_views(out@).to_multiset().add(env_views(envs@).to_multiset()) == env_views(
                    orig,
                ).to_multiset(),
                out@.len() + envs@.len() == orig.len(),
            decreases envs@.len(),
        {
            let mut m: usize = 0;
            let mut j: usize = 1;
            proof {
                lemma_lex_le_total(envs@[0].name@, envs@[0].name@);
            }
            while j < envs.len()
                invariant
                    0 <= m < j <= envs@.len(),
                    all_wf(envs@),
                    forall|k: int| 0 <= k < j ==> lex_le(envs@[m as int].name@, envs@[k].name@),
                decreases envs@.len() - j,
            {
                if !str_le(envs[m].name.as_str(), envs[j].name.as_str()) {
                    proof {
                        lemma_lex_le_total(envs@[m as int].name@, envs@[j as int].name@);
                        assert forall|k: int| 0 <= k < j + 1 implies lex_le(
                            envs@[j as int].name@,
                            envs@[k].name@,
                        ) by {
                            if k < j {
                                lemma_lex_le_trans(
                                    envs@[j as int].name@,
                                    envs@[m as int].name@,
                                    envs@[k].name@,
                                );
                            } else {
                                lemma_lex_le_total(envs@[j as int].name@, envs@[j as int].name@);
                            }
                        }
                    }
                    m = j;
                }
                j += 1;
            }
            let ghost envs_before = envs@;
            let ghost out_before = out@;
            let picked = envs.remove(m);
            out.push(picked);
            proof {
                assert(env_views(envs@) =~= env_views(envs_before).remove(m as int));
                assert(env_views(out@) =~= env_views(out_before).push(
                    (picked.name@, picked.env_vars@),
                ));
                assert(env_views(envs_before)[m as int] == (picked.name@, picked.env_vars@));
                let pv = (picked.name@, picked.env_vars@);
                env_views(envs_before).to_multiset_ensures();
                env_views(out_before).to_multiset_ensures();
                assert(env_views(envs_before).contains(pv));
                assert(env_views(envs_before).to_multiset().count(pv) > 0);
                assert(env_views(out@).to_multiset() =~= env_views(out_before).to_multiset().insert(
                    pv,
                ));
                assert(env_views(envs_before).remove(m as int).to_multiset() =~= env_views(
                    envs_before,
                ).to_multiset().remove(pv));
                assert(env_views(out@).to_multiset().add(env_views(envs@).to_multiset())
                    =~= env_views(out_before).to_multiset().add(
                    env_views(envs_before).to_multiset(),
                ));
                assert forall|i: int, j2: int|
                    0 <= i < out@.len() && 0 <= j2 < envs@.len() implies lex_le(
                    out@[i].name@,
                    envs@[j2].name@,
                ) by {
                    let pre = if j2 < m { j2 } else { j2 + 1 };
                    assert(envs@[j2] == envs_before[pre]);
                    if i < out@.len() - 1 {
                        assert(lex_le(out@[i].name@, envs_before[pre].name@));
                    } else {
                        assert(out@[i] == picked);
                        assert(lex_le(picked.name@, envs_before[pre].name@));
                    }
                }
            }
        }
        out
    }

    /// Discover every environment under the configuration root, from a
    /// snapshot of it: whether the root exists, whether it is a directory,
    /// and its entries with what was read for each. An absent root yields
    /// an empty catalog; a root that is not a directory is an error; a
    /// candidate that fails to parse or validate is omitted, never fatal.
    /// The result is sorted by name, ascending.
    pub fn list_environments(&self, root_exists: bool, root_is_dir: bool, entries: &Vec<DirEntry>)
        -> (r: Result<Vec<Environment>, CceError>)
        ensures
            match r {
                Ok(v) => {
                    &&& root_exists ==> root_is_dir
                    &&& !root_exists ==> v@.len() == 0
                    &&& root_exists ==> {
                        &&& sorted_by_name(v@)
                        &&& all_wf(v@)
                        &&& env_views(v@).to_multiset() == catalog_spec(
                            entries@,
                            ValidationPolicy::RequireAnyOfTwo,
                        ).to_multiset()
                    }
                },
                Err(e) => root_exists && !root_is_dir && (e matches CceError::MissingDirectory(p)
                    && p@ == self@),
            },
    {
        if !root_exists {
            return Ok(Vec::new());
        }
        if !root_is_dir {
            return Err(CceError::MissingDirectory(self.config_dir.clone()));
        }
        let (envs, _failures) = self.discover_entries(entries, ValidationPolicy::RequireAnyOfTwo);
        Ok(Self::sort_environments(envs))
    }
}

/// Interpret what the interactive picker printed: the trimmed selection,
/// or nothing when the user cancelled or selected nothing.
pub fn picker_selection(raw: &str) -> (r: Option<String>)
    ensures
        match r {
            Some(s) => s@ == trim_spec(raw@) && trim_spec(raw@).len() > 0,
            None => trim_spec(raw@).len() == 0,
        },
{
    let t = trim(raw);
    if t.is_empty() {
        None
    } else {
        Some(String::from_str(t))
    }
}

} // verus!
