use crate::text::{chars_of, string_of, subvec};
use vstd::prelude::*;

verus! {

/// A setting given as `<key>=<value>`.
#[derive(Debug, PartialEq)]
pub struct Entry(pub String, pub String);

/// Why the settings cannot be changed as asked.
#[derive(Debug, PartialEq)]
pub enum ConfigError {
    /// The text of a setting has no `=`.
    MissingSeparator,
    /// Both the settings of the user and those of the project are asked for.
    BothScopes,
    /// The key names no list that can be appended to.
    CannotAppend(String),
    /// The key is not written as `<table>.<key>`.
    CannotSet(String),
}

/// The error in words.
pub open spec fn config_error_text(e: ConfigError) -> Seq<char> {
    match e {
        ConfigError::MissingSeparator => "missing '=' separator"@,
        ConfigError::BothScopes => "'--local' and '--global' cannot be set at the same time"@,
        ConfigError::CannotAppend(key) => "unsupported key '"@ + key@ + "' cannot be appended"@,
        ConfigError::CannotSet(key) => "unsupported key '"@ + key@ + "' cannot be set"@,
    }
}

impl ConfigError {
    /// The error in words.
    pub fn to_string(&self) -> (s: String)
        ensures
            s@ == config_error_text(*self),
    {
        let mut out: Vec<char> = Vec::new();
        match self {
            ConfigError::MissingSeparator => {
                crate::text::extend_str(&mut out, "missing '=' separator");
            },
            ConfigError::BothScopes => {
                crate::text::extend_str(
                    &mut out,
                    "'--local' and '--global' cannot be set at the same time",
                );
            },
            ConfigError::CannotAppend(key) => {
                crate::text::extend_str(&mut out, "unsupported key '");
                crate::text::extend_str(&mut out, key.as_str());
                crate::text::extend_str(&mut out, "' cannot be appended");
            },
            ConfigError::CannotSet(key) => {
                crate::text::extend_str(&mut out, "unsupported key '");
                crate::text::extend_str(&mut out, key.as_str());
                crate::text::extend_str(&mut out, "' cannot be set");
            },
        }
        string_of(&out)
    }
}

/// One change of the file of settings.
#[derive(Debug, PartialEq)]
pub enum Edit {
    /// Add a path to the list of included files.
    AppendInclude(String),
    /// Add a path to the list of the indices of vendors.
    AppendVendorIndex(String),
    /// Set the key of the table to the value.
    Assign(String, String, String),
    /// Remove the key of the table.
    Unset(String, String),
}

/// What is asked of a change of the settings.
#[derive(Debug, PartialEq)]
pub struct Config {
    pub global: bool,
    pub local: bool,
    pub append: Vec<Entry>,
    pub set: Vec<Entry>,
    pub unset: Vec<String>,
}

/// The index of the first `c` in `s[i..]`, or the length of the text.
pub open spec fn index_of(s: Seq<char>, c: char, i: int) -> int
    decreases s.len() - i,
{
    if i < 0 || i >= s.len() {
        s.len() as int
    } else if s[i] == c {
        i
    } else {
        index_of(s, c, i + 1)
    }
}

/// The text before and the text after the first `c` of `s`, if `c` stands in it.
pub open spec fn split_once(s: Seq<char>, c: char) -> Option<(Seq<char>, Seq<char>)> {
    let k = index_of(s, c, 0);
    if k < s.len() {
        Some((s.subrange(0, k), s.subrange(k + 1, s.len() as int)))
    } else {
        None
    }
}

/// Splits a text at its first `c`.
pub fn split_at_first(s: &str, c: char) -> (r: Option<(String, String)>)
    ensures
        match (r, split_once(s@, c)) {
            (Some((a, b)), Some((x, y))) => a@ == x && b@ == y,
            (None, None) => true,
            _ => false,
        },
{
    let v = chars_of(s);
    let mut k: usize = 0;
    while k < v.len() && v[k] != c
        invariant
            k <= v.len(),
            index_of(v@, c, k as int) == index_of(v@, c, 0),
        decreases v.len() - k,
    {
        k += 1;
    }
    if k < v.len() {
        Some((string_of(&subvec(&v, 0, k)), string_of(&subvec(&v, k + 1, v.len()))))
    } else {
        None
    }
}

impl Entry {
    /// Reads a setting written as `<key>=<value>`; the first `=` parts
    /// the key from the value.
    pub fn from_str(s: &str) -> (r: Result<Entry, ConfigError>)
        ensures
            match (r, split_once(s@, '=')) {
                (Ok(e), Some((k, v))) => e.0@ == k && e.1@ == v,
                (Err(e), None) => e == ConfigError::MissingSeparator,
                _ => false,
            },
    {
        match split_at_first(s, '=') {
            Some((k, v)) => Ok(Entry(k, v)),
            None => Err(ConfigError::MissingSeparator),
        }
    }
}

/// A change of the file of settings over plain sequences.
pub enum EditView {
    AppendInclude(Seq<char>),
    AppendVendorIndex(Seq<char>),
    Assign(Seq<char>, Seq<char>, Seq<char>),
    Unset(Seq<char>, Seq<char>),
}

impl View for Edit {
    type V = EditView;

    open spec fn view(&self) -> EditView {
        match self {
            Edit::AppendInclude(v) => EditView::AppendInclude(v@),
            Edit::AppendVendorIndex(v) => EditView::AppendVendorIndex(v@),
            Edit::Assign(t, k, v) => EditView::Assign(t@, k@, v@),
            Edit::Unset(t, k) => EditView::Unset(t@, k@),
        }
    }
}

/// The change that appending the value to the key asks for, if the key
/// names a list.
pub open spec fn append_edit(key: Seq<char>, value: Seq<char>) -> Option<EditView> {
    if key == "include"@ {
        Some(EditView::AppendInclude(value))
    } else if key == "vendor.index"@ {
        Some(EditView::AppendVendorIndex(value))
    } else {
        None
    }
}

/// The change that setting the key to the value asks for, if the key is
/// written as `<table>.<key>`.
pub open spec fn set_edit(key: Seq<char>, value: Seq<char>) -> Option<EditView> {
    match split_once(key, '.') {
        Some((t, k)) => Some(EditView::Assign(t, k, value)),
        None => None,
    }
}

/// The change that removing the key asks for, if the key is written as
/// `<table>.<key>`.
pub open spec fn unset_edit(key: Seq<char>) -> Option<EditView> {
    match split_once(key, '.') {
        Some((t, k)) => Some(EditView::Unset(t, k)),
        None => None,
    }
}

impl Config {
    /// Whether all changes can be made: every key to append to names a
    /// list, and every key to set or to remove is written as `<table>.<key>`.
    pub open spec fn valid(&self) -> bool {
        &&& !(self.local && self.global)
        &&& forall|i: int|
            0 <= i < self.append@.len() ==> append_edit(
                (#[trigger] self.append@[i]).0@,
                self.append@[i].1@,
            ) is Some
        &&& forall|i: int|
            0 <= i < self.set@.len() ==> set_edit((#[trigger] self.set@[i]).0@, self.set@[i].1@)
                is Some
        &&& forall|i: int|
            0 <= i < self.unset@.len() ==> unset_edit((#[trigger] self.unset@[i])@) is Some
    }

    /// The changes of the file of settings that are asked for: first what
    /// is appended, then what is set, then what is removed. Nothing is
    /// changed unless every change can be made.
    pub fn run(&self) -> (r: Result<Vec<Edit>, ConfigError>)
        ensures
            match r {
                Ok(edits) => {
                    &&& self.valid()
                    &&& edits@.len() == self.append@.len() + self.set@.len() + self.unset@.len()
                    &&& forall|i: int|
                        0 <= i < self.append@.len() ==> Some((#[trigger] edits@[i])@)
                            == append_edit(self.append@[i].0@, self.append@[i].1@)
                    &&& forall|i: int|
                        0 <= i < self.set@.len() ==> Some(
                            (#[trigger] edits@[self.append@.len() + i])@,
                        ) == set_edit(self.set@[i].0@, self.set@[i].1@)
                    &&& forall|i: int|
                        0 <= i < self.unset@.len() ==> Some(
                            (#[trigger] edits@[self.append@.len() + self.set@.len() + i])@,
                        ) == unset_edit(self.unset@[i]@)
                },
                Err(e) => !self.valid() && match e {
                    ConfigError::MissingSeparator => false,
                    ConfigError::BothScopes => self.local && self.global,
                    ConfigError::CannotAppend(key) => exists|i: int|
                        0 <= i < self.append@.len() && (#[trigger] self.append@[i]).0@ == key@
                            && append_edit(self.append@[i].0@, self.append@[i].1@) is None,
                    ConfigError::CannotSet(key) => (exists|i: int|
                        0 <= i < self.set@.len() && (#[trigger] self.set@[i]).0@ == key@
                            && set_edit(self.set@[i].0@, self.set@[i].1@) is None) || (exists|
                        i: int,
                    |
                        0 <= i < self.unset@.len() && (#[trigger] self.unset@[i])@ == key@
                            && unset_edit(self.unset@[i]@) is None),
                },
            },
    {
        if self.local && self.global {
            return Err(ConfigError::BothScopes);
        }
        let mut edits: Vec<Edit> = Vec::new();
        let mut a: usize = 0;
        while a < self.append.len()
            invariant
                a <= self.append.len(),
                edits@.len() == a,
                forall|i: int|
                    0 <= i < a ==> Some((#[trigger] edits@[i])@) == append_edit(
                        self.append@[i].0@,
                        self.append@[i].1@,
                    ),
            decreases self.append.len() - a,
        {
            let entry = &self.append[a];
            let key = chars_of(entry.0.as_str());
            if crate::text::chars_eq(&key, &chars_of("include")) {
                edits.push(Edit::AppendInclude(entry.1.clone()));
            } else if crate::text::chars_eq(&key, &chars_of("vendor.index")) {
                edits.push(Edit::AppendVendorIndex(entry.1.clone()));
            } else {
                assert(append_edit(self.append@[a as int].0@, self.append@[a as int].1@) is None);
                return Err(ConfigError::CannotAppend(entry.0.clone()));
            }
            a += 1;
        }
        let mut s: usize = 0;
        while s < self.set.len()
            invariant
                s <= self.set.len(),
                edits@.len() == self.append@.len() + s,
                forall|i: int|
                    0 <= i < self.append@.len() ==> Some((#[trigger] edits@[i])@) == append_edit(
                        self.append@[i].0@,
                        self.append@[i].1@,
                    ),
                forall|i: int|
                    0 <= i < s ==> Some((#[trigger] edits@[self.append@.len() + i])@) == set_edit(
                        self.set@[i].0@,
                        self.set@[i].1@,
                    ),
            decreases self.set.len() - s,
        {
            let entry = &self.set[s];
            match split_at_first(entry.0.as_str(), '.') {
                Some((table, key)) => {
                    edits.push(Edit::Assign(table, key, entry.1.clone()));
                },
                None => {
                    assert(set_edit(self.set@[s as int].0@, self.set@[s as int].1@) is None);
                    return Err(ConfigError::CannotSet(entry.0.clone()));
                },
            }
            s += 1;
        }
        let mut u: usize = 0;
        while u < self.unset.len()
            invariant
                u <= self.unset.len(),
                edits@.len() == self.append@.len() + self.set@.len() + u,
                forall|i: int|
                    0 <= i < self.append@.len() ==> Some((#[trigger] edits@[i])@) == append_edit(
                        self.append@[i].0@,
                        self.append@[i].1@,
                    ),
                forall|i: int|
                    0 <= i < self.set@.len() ==> Some(
                        (#[trigger] edits@[self.append@.len() + i])@,
                    ) == set_edit(self.set@[i].0@, self.set@[i].1@),
                forall|i: int|
                    0 <= i < u ==> Some(
                        (#[trigger] edits@[self.append@.len() + self.set@.len() + i])@,
                    ) == unset_edit(self.unset@[i]@),
            decreases self.unset.len() - u,
        {
            match split_at_first(self.unset[u].as_str(), '.') {
                Some((table, key)) => {
                    edits.push(Edit::Unset(table, key));
                },
                None => {
                    assert(unset_edit(self.unset@[u as int]@) is None);
                    return Err(ConfigError::CannotSet(self.unset[u].clone()));
                },
            }
            u += 1;
        }
        proof {
            assert forall|i: int| 0 <= i < self.append@.len() implies append_edit(
                (#[trigger] self.append@[i]).0@,
                self.append@[i].1@,
            ) is Some by {
                assert(Some(edits@[i]@) == append_edit(self.append@[i].0@, self.append@[i].1@));
            }
            assert forall|i: int| 0 <= i < self.set@.len() implies set_edit(
                (#[trigger] self.set@[i]).0@,
                self.set@[i].1@,
            ) is Some by {
                assert(Some(edits@[self.append@.len() + i]@) == set_edit(
                    self.set@[i].0@,
                    self.set@[i].1@,
                ));
            }
            assert forall|i: int| 0 <= i < self.unset@.len() implies unset_edit(
                (#[trigger] self.unset@[i])@,
            ) is Some by {
                assert(Some(edits@[self.append@.len() + self.set@.len() + i]@) == unset_edit(
                    self.unset@[i]@,
                ));
            }
        }
        Ok(edits)
    }
}

} // verus!
