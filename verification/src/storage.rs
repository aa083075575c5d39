//! The container store: the durable mapping from a container's name to its
//! configuration record and to its on-disk paths.
//!
//! The store's state is modelled here as a sequence of parsed records with
//! pairwise-distinct names, plus the set of names whose config files exist
//! but did not parse. The shell around the library mirrors every change
//! onto disk (one directory per container under `<base>/containers/`) and
//! fills a fresh store from what it reads back, through `load_entry`.

use vstd::prelude::*;
use crate::codec::{parse_config, parsed};
use crate::config::{ConfigView, ContainerConfig};
use crate::errors::DockError;
use vstd::string::StringExecFns;

verus! {

/// The names of `s` are pairwise distinct.
pub open spec fn unique_names(s: Seq<ConfigView>) -> bool {
    forall|i: int, j: int| 0 <= i < j < s.len() ==> s[i].name != s[j].name
}

/// Some record of `s` is named `name`.
pub open spec fn has_name(s: Seq<ConfigView>, name: Seq<char>) -> bool {
    exists|i: int| 0 <= i < s.len() && s[i].name == name
}

/// The position of the record named `name`.
pub open spec fn idx_of(s: Seq<ConfigView>, name: Seq<char>) -> int {
    choose|i: int| 0 <= i < s.len() && s[i].name == name
}

/// The record named `name`.
pub open spec fn cfg_of(s: Seq<ConfigView>, name: Seq<char>) -> ConfigView {
    s[idx_of(s, name)]
}

/// What a save does to the store: it replaces the record of the same name,
/// or appends the record if the name is new.
pub open spec fn store_save(s: Seq<ConfigView>, c: ConfigView) -> Seq<ConfigView> {
    if has_name(s, c.name) {
        s.update(idx_of(s, c.name), c)
    } else {
        s.push(c)
    }
}

/// What a delete does to the store: it removes the record of that name, and
/// is a no-op if there is none.
pub open spec fn store_delete(s: Seq<ConfigView>, name: Seq<char>) -> Seq<ConfigView> {
    if has_name(s, name) {
        s.remove(idx_of(s, name))
    } else {
        s
    }
}

/// The corrupt marks of `s` are pairwise distinct.
pub open spec fn unique_cnames(s: Seq<Seq<char>>) -> bool {
    forall|i: int, j: int| 0 <= i < j < s.len() ==> s[i] != s[j]
}

/// `name` is marked corrupt in `s`.
pub open spec fn has_cname(s: Seq<Seq<char>>, name: Seq<char>) -> bool {
    exists|i: int| 0 <= i < s.len() && s[i] == name
}

/// The position of the corrupt mark of `name`.
pub open spec fn cidx_of(s: Seq<Seq<char>>, name: Seq<char>) -> int {
    choose|i: int| 0 <= i < s.len() && s[i] == name
}

/// Marking a name corrupt: a no-op if it is already marked.
pub open spec fn corrupt_mark(s: Seq<Seq<char>>, name: Seq<char>) -> Seq<Seq<char>> {
    if has_cname(s, name) {
        s
    } else {
        s.push(name)
    }
}

/// Clearing a name's corrupt mark: a no-op if there is none.
pub open spec fn corrupt_clear(s: Seq<Seq<char>>, name: Seq<char>) -> Seq<Seq<char>> {
    if has_cname(s, name) {
        s.remove(cidx_of(s, name))
    } else {
        s
    }
}

/// Well-formedness of a store's state: record names pairwise distinct,
/// corrupt marks pairwise distinct, and no name both parsed and corrupt —
/// one config file per name, which either parses or does not.
pub open spec fn store_wf(entries: Seq<ConfigView>, corrupt: Seq<Seq<char>>) -> bool {
    unique_names(entries) && unique_cnames(corrupt) && (forall|i: int|
        0 <= i < entries.len() ==> !has_cname(corrupt, entries[i].name))
}

/// In a store with distinct names, a record found at `i` is the record of
/// its name.
pub proof fn lemma_idx(s: Seq<ConfigView>, name: Seq<char>, i: int)
    requires
        unique_names(s),
        0 <= i < s.len(),
        s[i].name == name,
    ensures
        has_name(s, name),
        idx_of(s, name) == i,
        cfg_of(s, name) == s[i],
{
    assert(has_name(s, name));
    let k = idx_of(s, name);
    assert(0 <= k < s.len() && s[k].name == name);
    if k != i {
        if k < i {
            assert(s[k].name != s[i].name);
        } else {
            assert(s[i].name != s[k].name);
        }
    }
}

/// After a save the saved record is present under its name and reads back
/// equal in all fields, and the names stay distinct. This is what makes a
/// load after a save, and an existence check after a create, come out
/// right.
pub proof fn lemma_save_then_load(s: Seq<ConfigView>, c: ConfigView)
    requires
        unique_names(s),
    ensures
        unique_names(store_save(s, c)),
        has_name(store_save(s, c), c.name),
        cfg_of(store_save(s, c), c.name) == c,
{
    if has_name(s, c.name) {
        let i = idx_of(s, c.name);
        assert(0 <= i < s.len() && s[i].name == c.name);
        let s2 = s.update(i, c);
        assert(unique_names(s2)) by {
            assert forall|p: int, q: int| 0 <= p < q < s2.len() implies s2[p].name
                != s2[q].name by {
                assert(s[p].name != s[q].name);
            }
        }
        lemma_idx(s2, c.name, i);
    } else {
        let s2 = s.push(c);
        assert(unique_names(s2)) by {
            assert forall|p: int, q: int| 0 <= p < q < s2.len() implies s2[p].name
                != s2[q].name by {
                if q < s.len() {
                    assert(s[p].name != s[q].name);
                } else {
                    assert(s2[q] == c);
                    assert(!(0 <= p < s.len() && s[p].name == c.name));
                }
            }
        }
        lemma_idx(s2, c.name, s.len() as int);
    }
}

/// A save leaves every other name's record as it was.
pub proof fn lemma_save_preserves_others(s: Seq<ConfigView>, c: ConfigView, other: Seq<char>)
    requires
        unique_names(s),
        other != c.name,
    ensures
        has_name(store_save(s, c), other) == has_name(s, other),
        has_name(s, other) ==> cfg_of(store_save(s, c), other) == cfg_of(s, other),
{
    lemma_save_then_load(s, c);
    let s2 = store_save(s, c);
    if has_name(s, other) {
        let i = idx_of(s, other);
        assert(0 <= i < s.len() && s[i].name == other);
        assert(s2[i].name == other) by {
            if has_name(s, c.name) {
                assert(i != idx_of(s, c.name));
            }
        }
        lemma_idx(s2, other, i);
        lemma_idx(s, other, i);
    } else {
        if has_name(s2, other) {
            let i = idx_of(s2, other);
            assert(0 <= i < s2.len() && s2[i].name == other);
            if has_name(s, c.name) {
                assert(s[i].name == other);
            } else {
                if i < s.len() {
                    assert(s[i].name == other);
                } else {
                    assert(s2[i] == c);
                }
            }
        }
    }
}

/// After a delete the name is gone, the other records are untouched, and
/// the names stay distinct.
pub proof fn lemma_delete_then_absent(s: Seq<ConfigView>, name: Seq<char>)
    requires
        unique_names(s),
    ensures
        unique_names(store_delete(s, name)),
        !has_name(store_delete(s, name), name),
        forall|other: Seq<char>|
            other != name ==> has_name(store_delete(s, name), other) == has_name(s, other),
{
    if has_name(s, name) {
        let i = idx_of(s, name);
        assert(0 <= i < s.len() && s[i].name == name);
        let s2 = s.remove(i);
        assert forall|p: int| 0 <= p < s2.len() implies s2[p] == (if p < i {
            s[p]
        } else {
            s[p + 1]
        }) by {}
        assert(unique_names(s2)) by {
            assert forall|p: int, q: int| 0 <= p < q < s2.len() implies s2[p].name
                != s2[q].name by {
                let p0 = if p < i { p } else { p + 1 };
                let q0 = if q < i { q } else { q + 1 };
                assert(s[p0].name != s[q0].name);
            }
        }
        assert(!has_name(s2, name)) by {
            if has_name(s2, name) {
                let k = choose|k: int| 0 <= k < s2.len() && s2[k].name == name;
                let k0 = if k < i { k } else { k + 1 };
                assert(s[k0].name == name);
                if k0 < i {
                    assert(s[k0].name != s[i].name);
                } else {
                    assert(s[i].name != s[k0].name);
                }
            }
        }
        assert forall|other: Seq<char>| other != name implies has_name(s2, other) == has_name(
            s,
            other,
        ) by {
            if has_name(s, other) {
                let k = choose|k: int| 0 <= k < s.len() && s[k].name == other;
                assert(k != i);
                if k < i {
                    assert(s2[k].name == other);
                } else {
                    assert(s2[k - 1].name == other);
                }
            }
            if has_name(s2, other) {
                let k = choose|k: int| 0 <= k < s2.len() && s2[k].name == other;
                let k0 = if k < i { k } else { k + 1 };
                assert(s[k0].name == other);
            }
        }
    }
}

/// In a corrupt set with distinct marks, a mark found at `i` is the mark of
/// its name.
proof fn lemma_cidx(s: Seq<Seq<char>>, name: Seq<char>, i: int)
    requires
        unique_cnames(s),
        0 <= i < s.len(),
        s[i] == name,
    ensures
        has_cname(s, name),
        cidx_of(s, name) == i,
{
    assert(has_cname(s, name));
    let k = cidx_of(s, name);
    assert(0 <= k < s.len() && s[k] == name);
    if k != i {
        if k < i {
            assert(s[k] != s[i]);
        } else {
            assert(s[i] != s[k]);
        }
    }
}

/// After a clear the mark is gone, the other marks are untouched, and marks
/// stay distinct.
proof fn lemma_clear_then_absent(s: Seq<Seq<char>>, name: Seq<char>)
    requires
        unique_cnames(s),
    ensures
        unique_cnames(corrupt_clear(s, name)),
        !has_cname(corrupt_clear(s, name), name),
        forall|other: Seq<char>|
            other != name ==> has_cname(corrupt_clear(s, name), other) == has_cname(s, other),
{
    if has_cname(s, name) {
        let i = cidx_of(s, name);
        assert(0 <= i < s.len() && s[i] == name);
        let s2 = s.remove(i);
        assert forall|p: int| 0 <= p < s2.len() implies s2[p] == (if p < i {
            s[p]
        } else {
            s[p + 1]
        }) by {}
        assert(unique_cnames(s2)) by {
            assert forall|p: int, q: int| 0 <= p < q < s2.len() implies s2[p] != s2[q] by {
                let p0 = if p < i { p } else { p + 1 };
                let q0 = if q < i { q } else { q + 1 };
                assert(s[p0] != s[q0]);
            }
        }
        assert(!has_cname(s2, name)) by {
            if has_cname(s2, name) {
                let k = choose|k: int| 0 <= k < s2.len() && s2[k] == name;
                let k0 = if k < i { k } else { k + 1 };
                assert(s[k0] == name);
                if k0 < i {
                    assert(s[k0] != s[i]);
                } else {
                    assert(s[i] != s[k0]);
                }
            }
        }
        assert forall|other: Seq<char>| other != name implies has_cname(s2, other) == has_cname(
            s,
            other,
        ) by {
            if has_cname(s, other) {
                let k = choose|k: int| 0 <= k < s.len() && s[k] == other;
                assert(k != i);
                if k < i {
                    assert(s2[k] == other);
                } else {
                    assert(s2[k - 1] == other);
                }
            }
            if has_cname(s2, other) {
                let k = choose|k: int| 0 <= k < s2.len() && s2[k] == other;
                let k0 = if k < i { k } else { k + 1 };
                assert(s[k0] == other);
            }
        }
    }
}

/// After a mark the name is marked, the other marks are untouched, and
/// marks stay distinct.
proof fn lemma_mark(s: Seq<Seq<char>>, name: Seq<char>)
    requires
        unique_cnames(s),
    ensures
        unique_cnames(corrupt_mark(s, name)),
        has_cname(corrupt_mark(s, name), name),
        forall|other: Seq<char>|
            other != name ==> has_cname(corrupt_mark(s, name), other) == has_cname(s, other),
{
    if has_cname(s, name) {
    } else {
        let s2 = s.push(name);
        assert(s2[s.len() as int] == name);
        assert(unique_cnames(s2)) by {
            assert forall|p: int, q: int| 0 <= p < q < s2.len() implies s2[p] != s2[q] by {
                if q < s.len() {
                    assert(s[p] != s[q]);
                } else {
                    assert(s2[q] == name);
                    assert(!(0 <= p < s.len() && s[p] == name));
                }
            }
        }
        assert forall|other: Seq<char>| other != name implies has_cname(s2, other) == has_cname(
            s,
            other,
        ) by {
            if has_cname(s2, other) {
                let k = choose|k: int| 0 <= k < s2.len() && s2[k] == other;
                if k < s.len() {
                    assert(s[k] == other);
                } else {
                    assert(s2[k] == name);
                }
            }
            if has_cname(s, other) {
                let k = choose|k: int| 0 <= k < s.len() && s[k] == other;
                assert(s2[k] == other);
            }
        }
    }
}

/// The store: a storage root, the parsed records of the containers under
/// it, and the names whose config files did not parse.
pub struct Storage {
    base_path: String,
    containers: Vec<ContainerConfig>,
    corrupt_names: Vec<String>,
}

impl Storage {
    /// The storage root the paths are formed under.
    pub closed spec fn base(self) -> Seq<char> {
        self.base_path@
    }

    /// The records the store holds.
    pub closed spec fn entries(self) -> Seq<ConfigView> {
        self.containers.deep_view()
    }

    /// The names whose config files exist but are corrupt.
    pub closed spec fn corrupt(self) -> Seq<Seq<char>> {
        self.corrupt_names.deep_view()
    }

    /// Well-formedness of the store.
    pub open spec fn wf(self) -> bool {
        store_wf(self.entries(), self.corrupt())
    }

    /// An empty store rooted at `base_path`.
    pub fn new(base_path: String) -> (s: Storage)
        ensures
            s.base() == base_path@,
            s.entries() == Seq::<ConfigView>::empty(),
            s.corrupt() == Seq::<Seq<char>>::empty(),
            s.wf(),
    {
        let s = Storage { base_path, containers: Vec::new(), corrupt_names: Vec::new() };
        proof {
            assert(s.entries() =~= Seq::<ConfigView>::empty());
            assert(s.corrupt() =~= Seq::<Seq<char>>::empty());
        }
        s
    }

    /// The directory that holds everything of the container `name`.
    pub fn container_dir(&self, name: &str) -> (r: String)
        ensures
            r@ == self.base() + "/containers/"@ + name@,
    {
        let mut r = self.base_path.clone();
        r.append("/containers/");
        r.append(name);
        r
    }

    /// The file the container's record is persisted in.
    pub fn config_path(&self, name: &str) -> (r: String)
        ensures
            r@ == self.base() + "/containers/"@ + name@ + "/config.json"@,
    {
        let mut r = self.container_dir(name);
        r.append("/config.json");
        r
    }

    /// The captured filesystem root the container's processes are re-rooted
    /// into.
    pub fn filesystem_path(&self, name: &str) -> (r: String)
        ensures
            r@ == self.base() + "/containers/"@ + name@ + "/fs"@,
    {
        let mut r = self.container_dir(name);
        r.append("/fs");
        r
    }

    /// The combined stdout and stderr sink of the container's last start.
    pub fn logs_path(&self, name: &str) -> (r: String)
        ensures
            r@ == self.base() + "/containers/"@ + name@ + "/logs.txt"@,
    {
        let mut r = self.container_dir(name);
        r.append("/logs.txt");
        r
    }

    /// The position of the record named `name`, scanning in order.
    fn find(&self, name: &str) -> (r: Option<usize>)
        ensures
            match r {
                Some(i) => i < self.entries().len() && self.entries()[i as int].name == name@,
                None => !has_name(self.entries(), name@),
            },
    {
        let mut i: usize = 0;
        while i < self.containers.len()
            invariant
                i <= self.entries().len(),
                self.entries().len() == self.containers@.len(),
                forall|j: int| 0 <= j < i ==> self.entries()[j].name != name@,
            decreases self.containers@.len() - i,
        {
            if crate::text::str_eq(self.containers[i].name.as_str(), name) {
                proof {
                    assert(self.entries()[i as int] == self.containers@[i as int].deep_view());
                }
                return Some(i);
            }
            proof {
                assert(self.entries()[i as int] == self.containers@[i as int].deep_view());
            }
            i = i + 1;
        }
        None
    }

    /// The position of the corrupt mark of `name`, scanning in order.
    fn cfind(&self, name: &str) -> (r: Option<usize>)
        ensures
            match r {
                Some(i) => i < self.corrupt().len() && self.corrupt()[i as int] == name@,
                None => !has_cname(self.corrupt(), name@),
            },
    {
        let mut i: usize = 0;
        while i < self.corrupt_names.len()
            invariant
                i <= self.corrupt().len(),
                self.corrupt().len() == self.corrupt_names@.len(),
                forall|j: int| 0 <= j < i ==> self.corrupt()[j] != name@,
            decreases self.corrupt_names@.len() - i,
        {
            if crate::text::str_eq(self.corrupt_names[i].as_str(), name) {
                proof {
                    assert(self.corrupt()[i as int] == self.corrupt_names@[i as int].deep_view());
                }
                return Some(i);
            }
            proof {
                assert(self.corrupt()[i as int] == self.corrupt_names@[i as int].deep_view());
            }
            i = i + 1;
        }
        None
    }

    /// Is a config file of that name present — whether it parses or not?
    pub fn container_exists(&self, name: &str) -> (b: bool)
        ensures
            b == (has_name(self.entries(), name@) || has_cname(self.corrupt(), name@)),
    {
        match self.find(name) {
            Some(i) => {
                proof {
                    assert(has_name(self.entries(), name@));
                }
                true
            },
            None => match self.cfind(name) {
                Some(i) => {
                    proof {
                        assert(has_cname(self.corrupt(), name@));
                    }
                    true
                },
                None => false,
            },
        }
    }

    /// Saves `config`: the record of the same name is overwritten, a new
    /// name is appended, and a corrupt mark of that name — its file is now
    /// validly written — is cleared.
    pub fn save_config(&mut self, config: &ContainerConfig)
        requires
            old(self).wf(),
        ensures
            final(self).wf(),
            final(self).base() == old(self).base(),
            final(self).entries() == store_save(old(self).entries(), config@),
            final(self).corrupt() == corrupt_clear(old(self).corrupt(), config@.name),
    {
        proof {
            lemma_save_then_load(self.entries(), config@);
            lemma_clear_then_absent(self.corrupt(), config@.name);
        }
        match self.cfind(&config.name.as_str()) {
            Some(i) => {
                proof {
                    lemma_cidx(self.corrupt(), config@.name, i as int);
                }
                self.corrupt_names.remove(i);
                proof {
                    assert(self.corrupt() =~= corrupt_clear(old(self).corrupt(), config@.name));
                }
            },
            None => {
                proof {
                    assert(self.corrupt() =~= corrupt_clear(old(self).corrupt(), config@.name));
                }
            },
        }
        let found = self.find(&config.name.as_str());
        match found {
            Some(i) => {
                proof {
                    lemma_idx(self.entries(), config@.name, i as int);
                }
                self.containers[i] = config.duplicate();
                proof {
                    assert(self.entries() =~= store_save(old(self).entries(), config@));
                }
            },
            None => {
                self.containers.push(config.duplicate());
                proof {
                    assert(self.entries() =~= store_save(old(self).entries(), config@));
                }
            },
        }
        proof {
            let e2 = self.entries();
            let c2 = self.corrupt();
            let e1 = old(self).entries();
            let c1 = old(self).corrupt();
            assert forall|i: int| 0 <= i < e2.len() implies !has_cname(c2, e2[i].name) by {
                if e2[i].name == config@.name {
                    assert(!has_cname(c2, config@.name));
                } else {
                    assert(e2[i] == e1[i]);
                    assert(!has_cname(c1, e2[i].name));
                    assert(has_cname(c2, e2[i].name) == has_cname(c1, e2[i].name));
                }
            }
        }
    }

    /// Marks `name` corrupt: its config file exists but does not parse, so
    /// any parsed record of the name leaves the store.
    fn mark_corrupt(&mut self, name: &str)
        requires
            old(self).wf(),
        ensures
            final(self).wf(),
            final(self).base() == old(self).base(),
            final(self).entries() == store_delete(old(self).entries(), name@),
            final(self).corrupt() == corrupt_mark(old(self).corrupt(), name@),
    {
        proof {
            lemma_delete_then_absent(self.entries(), name@);
            lemma_mark(self.corrupt(), name@);
        }
        match self.find(name) {
            Some(i) => {
                proof {
                    lemma_idx(self.entries(), name@, i as int);
                }
                self.containers.remove(i);
                proof {
                    assert(self.entries() =~= store_delete(old(self).entries(), name@));
                }
            },
            None => {
                proof {
                    assert(self.entries() =~= store_delete(old(self).entries(), name@));
                }
            },
        }
        match self.cfind(name) {
            Some(i) => {
                proof {
                    assert(has_cname(self.corrupt(), name@));
                    assert(self.corrupt() =~= corrupt_mark(old(self).corrupt(), name@));
                }
            },
            None => {
                self.corrupt_names.push(name.to_owned());
                proof {
                    assert(self.corrupt() =~= old(self).corrupt().push(name@));
                    assert(self.corrupt() =~= corrupt_mark(old(self).corrupt(), name@));
                }
            },
        }
        proof {
            let e2 = self.entries();
            let c2 = self.corrupt();
            let e1 = old(self).entries();
            let c1 = old(self).corrupt();
            assert forall|i: int| 0 <= i < e2.len() implies !has_cname(c2, e2[i].name) by {
                assert(has_name(e2, e2[i].name));
                assert(e2[i].name != name@);
                assert(has_name(e1, e2[i].name)) by {
                    assert(has_name(store_delete(e1, name@), e2[i].name) == has_name(
                        e1,
                        e2[i].name,
                    ));
                }
                let k = idx_of(e1, e2[i].name);
                assert(!has_cname(c1, e1[k].name));
                assert(has_cname(c2, e2[i].name) == has_cname(c1, e2[i].name));
            }
        }
    }

    /// Mirrors one on-disk container directory into the store: no config
    /// file means no container; text that parses becomes the record; text
    /// that does not parse marks the name corrupt — such a container still
    /// exists, but loading it fails and the listing skips it.
    pub fn load_entry(&mut self, name: &str, file_text: Option<&str>)
        requires
            old(self).wf(),
        ensures
            final(self).wf(),
            final(self).base() == old(self).base(),
            match file_text {
                None => final(self).entries() == old(self).entries() && final(self).corrupt()
                    == old(self).corrupt(),
                Some(text) => match parsed(text@) {
                    Some(c) => final(self).entries() == store_save(old(self).entries(), c)
                        && final(self).corrupt() == corrupt_clear(old(self).corrupt(), c.name),
                    None => final(self).entries() == store_delete(old(self).entries(), name@)
                        && final(self).corrupt() == corrupt_mark(old(self).corrupt(), name@),
                },
            },
    {
        match file_text {
            None => {},
            Some(text) => match parse_config(text) {
                Ok(config) => self.save_config(&config),
                Err(_) => self.mark_corrupt(name),
            },
        }
    }

    /// Loads the record named `name`: an unknown name is refused as
    /// `NotFound`, a name whose config file exists but is corrupt as
    /// `Parse`.
    pub fn load_config(&self, name: &str) -> (r: Result<ContainerConfig, DockError>)
        requires
            self.wf(),
        ensures
            match r {
                Ok(c) => has_name(self.entries(), name@) && c@ == cfg_of(self.entries(), name@),
                Err(e) => !has_name(self.entries(), name@) && ((e == DockError::Parse && has_cname(
                    self.corrupt(),
                    name@,
                )) || (e == DockError::NotFound && !has_cname(self.corrupt(), name@))),
            },
    {
        let found = self.find(name);
        match found {
            Some(i) => {
                proof {
                    lemma_idx(self.entries(), name@, i as int);
                    assert(self.entries()[i as int] == self.containers@[i as int].deep_view());
                }
                Ok(self.containers[i].duplicate())
            },
            None => match self.cfind(name) {
                Some(i) => {
                    proof {
                        assert(has_cname(self.corrupt(), name@));
                    }
                    Err(DockError::Parse)
                },
                None => Err(DockError::NotFound),
            },
        }
    }

    /// All parsed records, in the store's order; a corrupt entry is
    /// silently excluded — the listing's deliberate best-effort policy.
    pub fn list_containers(&self) -> (r: Vec<ContainerConfig>)
        ensures
            r.deep_view() == self.entries(),
    {
        let mut r: Vec<ContainerConfig> = Vec::new();
        let mut i: usize = 0;
        while i < self.containers.len()
            invariant
                i <= self.containers@.len(),
                r@.len() == i,
                r.deep_view() == self.entries().subrange(0, i as int),
                self.entries().len() == self.containers@.len(),
            decreases self.containers@.len() - i,
        {
            let ghost r0 = r@;
            let ghost d0 = r.deep_view();
            let dup = self.containers[i].duplicate();
            let ghost dv = dup@;
            r.push(dup);
            proof {
                assert(self.entries()[i as int] == self.containers@[i as int].deep_view());
                assert forall|k: int| 0 <= k < i + 1 implies r.deep_view()[k]
                    == self.entries().subrange(0, i + 1)[k] by {
                    if k < i {
                        assert(r@[k] == r0[k]);
                        assert(r.deep_view()[k] == r0[k].deep_view());
                        assert(d0[k] == r0[k].deep_view());
                        assert(d0[k] == self.entries()[k]);
                    } else {
                        assert(r@[k].deep_view() == dv);
                    }
                }
                assert(r.deep_view() =~= self.entries().subrange(0, i + 1));
            }
            i = i + 1;
        }
        proof {
            assert(self.entries().subrange(0, self.entries().len() as int) =~= self.entries());
        }
        r
    }

    /// Deletes everything of the name — the parsed record or the corrupt
    /// mark; deleting an absent name is a no-op.
    pub fn delete_container(&mut self, name: &str)
        requires
            old(self).wf(),
        ensures
            final(self).wf(),
            final(self).base() == old(self).base(),
            final(self).entries() == store_delete(old(self).entries(), name@),
            final(self).corrupt() == corrupt_clear(old(self).corrupt(), name@),
    {
        proof {
            lemma_delete_then_absent(self.entries(), name@);
            lemma_clear_then_absent(self.corrupt(), name@);
        }
        match self.find(name) {
            Some(i) => {
                proof {
                    lemma_idx(self.entries(), name@, i as int);
                }
                self.containers.remove(i);
                proof {
                    assert(self.entries() =~= store_delete(old(self).entries(), name@));
                }
            },
            None => {
                proof {
                    assert(self.entries() =~= store_delete(old(self).entries(), name@));
                }
            },
        }
        match self.cfind(name) {
            Some(i) => {
                proof {
                    lemma_cidx(self.corrupt(), name@, i as int);
                }
                self.corrupt_names.remove(i);
                proof {
                    assert(self.corrupt() =~= corrupt_clear(old(self).corrupt(), name@));
                }
            },
            None => {
                proof {
                    assert(self.corrupt() =~= corrupt_clear(old(self).corrupt(), name@));
                }
            },
        }
        proof {
            let e2 = self.entries();
            let c2 = self.corrupt();
            let e1 = old(self).entries();
            let c1 = old(self).corrupt();
            assert forall|i: int| 0 <= i < e2.len() implies !has_cname(c2, e2[i].name) by {
                assert(has_name(e2, e2[i].name));
                if e2[i].name == name@ {
                    assert(!has_name(store_delete(e1, name@), name@));
                } else {
                    assert(has_name(e1, e2[i].name));
                    let k = idx_of(e1, e2[i].name);
                    assert(!has_cname(c1, e1[k].name));
                    assert(has_cname(c2, e2[i].name) == has_cname(c1, e2[i].name));
                }
            }
        }
    }
}

} // verus!
