use crate::text::{chars_eq, chars_of, extend, string_of, subvec};
use vstd::prelude::*;

verus! {

/// The values of the variables that a template may name.
#[derive(Debug)]
pub struct VariableTable {
    pub keys: Vec<String>,
    pub values: Vec<String>,
}

/// The index of the first of `keys[i..]` that is `key`, or the number of
/// keys if there is none.
pub open spec fn key_at(keys: Seq<String>, key: Seq<char>, i: int) -> int
    decreases keys.len() - i,
{
    if i < 0 || i >= keys.len() {
        keys.len() as int
    } else if keys[i]@ == key {
        i
    } else {
        key_at(keys, key, i + 1)
    }
}

/// The index found lies within the keys, or is their number.
pub proof fn lemma_key_at(keys: Seq<String>, key: Seq<char>, i: int)
    requires
        0 <= i <= keys.len(),
    ensures
        i <= key_at(keys, key, i) <= keys.len(),
        key_at(keys, key, i) < keys.len() ==> keys[key_at(keys, key, i)]@ == key,
    decreases keys.len() - i,
{
    if i < keys.len() && keys[i]@ != key {
        lemma_key_at(keys, key, i + 1);
    }
}

/// The value that the table holds for `key`, if it holds one.
pub open spec fn lookup(keys: Seq<String>, values: Seq<String>, key: Seq<char>) -> Option<Seq<char>> {
    let k = key_at(keys, key, 0);
    if k < keys.len() && k < values.len() {
        Some(values[k]@)
    } else {
        None
    }
}

impl View for VariableTable {
    type V = Map<Seq<char>, Seq<char>>;

    /// The variables that the table holds, each with its value.
    open spec fn view(&self) -> Map<Seq<char>, Seq<char>> {
        Map::new(
            |key: Seq<char>| lookup(self.keys@, self.values@, key) is Some,
            |key: Seq<char>| lookup(self.keys@, self.values@, key)->0,
        )
    }
}

impl VariableTable {
    /// Whether every key has its value.
    pub open spec fn wf(&self) -> bool {
        self.keys@.len() == self.values@.len()
    }

    /// The value of the variable `key`, if the table holds one.
    pub open spec fn spec_get(&self, key: Seq<char>) -> Option<Seq<char>> {
        lookup(self.keys@, self.values@, key)
    }

    /// A table without variables.
    pub fn new() -> (r: VariableTable)
        ensures
            r.wf(),
            r.keys@.len() == 0,
            r@ == Map::<Seq<char>, Seq<char>>::empty(),
    {
        let r = VariableTable { keys: Vec::new(), values: Vec::new() };
        assert(r@ =~= Map::<Seq<char>, Seq<char>>::empty());
        r
    }

    /// Finds the entry of the variable `key`.
    fn find(&self, key: &Vec<char>) -> (r: usize)
        ensures
            r == key_at(self.keys@, key@, 0),
            r <= self.keys@.len(),
    {
        let mut i: usize = 0;
        while i < self.keys.len()
            invariant
                i <= self.keys.len(),
                key_at(self.keys@, key@, i as int) == key_at(self.keys@, key@, 0),
            decreases self.keys.len() - i,
        {
            if chars_eq(&chars_of(self.keys[i].as_str()), key) {
                return i;
            }
            i += 1;
        }
        i
    }

    /// Sets the variable `key` to `value`.
    pub fn add(&mut self, key: &str, value: &str)
        requires
            old(self).wf(),
        ensures
            final(self).wf(),
            final(self)@ == old(self)@.insert(key@, value@),
            final(self).spec_get(key@) == Some(value@),
            forall|other: Seq<char>|
                other != key@ ==> final(self).spec_get(other) == old(self).spec_get(other),
    {
        let k = self.find(&chars_of(key));
        let ghost keys0 = self.keys@;
        let ghost values0 = self.values@;
        proof {
            lemma_key_at(keys0, key@, 0);
        }
        if k < self.keys.len() {
            self.values.set(k, String::from_str(value));
            proof {
                assert forall|other: Seq<char>| other != key@ implies self.spec_get(other) == old(
                    self,
                ).spec_get(other) by {
                    lemma_key_at(keys0, other, 0);
                }
            }
        } else {
            self.keys.push(String::from_str(key));
            self.values.push(String::from_str(value));
            proof {
                lemma_key_at_push(keys0, self.keys@[keys0.len() as int], key@, 0);
                assert forall|other: Seq<char>| other != key@ implies self.spec_get(other) == old(
                    self,
                ).spec_get(other) by {
                    lemma_key_at_push(keys0, self.keys@[keys0.len() as int], other, 0);
                    lemma_key_at(keys0, other, 0);
                }
            }
        }
        proof {
            let want = old(self)@.insert(key@, value@);
            assert(self.spec_get(key@) == Some(value@));
            assert forall|k: Seq<char>| #[trigger]
                self@.dom().contains(k) == want.dom().contains(k) by {
                if k != key@ {
                    assert(self.spec_get(k) == old(self).spec_get(k));
                }
            }
            assert forall|k: Seq<char>| self@.dom().contains(k) implies #[trigger] self@[k]
                == want[k] by {
                if k != key@ {
                    assert(self.spec_get(k) == old(self).spec_get(k));
                }
            }
            assert(self@ =~= want);
        }
    }

    /// The value of the variable `key`, if the table holds one.
    pub fn get(&self, key: &str) -> (r: Option<&String>)
        requires
            self.wf(),
        ensures
            match r {
                Some(v) => self.spec_get(key@) == Some(v@) && self@.contains_key(key@) && self@[key@]
                    == v@,
                None => self.spec_get(key@) is None && !self@.contains_key(key@),
            },
    {
        let k = self.find(&chars_of(key));
        if k < self.keys.len() {
            Some(&self.values[k])
        } else {
            None
        }
    }
}

/// Where a key is looked for in a list with one more key at its end.
pub proof fn lemma_key_at_push(keys: Seq<String>, last: String, key: Seq<char>, i: int)
    requires
        0 <= i <= keys.len(),
    ensures
        key_at(keys.push(last), key, i) == if key_at(keys, key, i) < keys.len() {
            key_at(keys, key, i)
        } else if last@ == key {
            keys.len() as int
        } else {
            keys.len() as int + 1
        },
    decreases keys.len() - i,
{
    let next = keys.push(last);
    if i < keys.len() {
        assert(next[i] == keys[i]);
        if keys[i]@ != key {
            lemma_key_at_push(keys, last, key, i + 1);
        }
    } else {
        assert(next[i] == last);
        assert(key_at(next, key, i + 1) == next.len());
    }
}

/// Whether `c` is white space.
pub open spec fn is_whitespace(c: char) -> bool {
    ('\u{9}' <= c && c <= '\u{d}') || c == ' ' || c == '\u{85}' || c == '\u{a0}' || c
        == '\u{1680}' || ('\u{2000}' <= c && c <= '\u{200a}') || c == '\u{2028}' || c
        == '\u{2029}' || c == '\u{202f}' || c == '\u{205f}' || c == '\u{3000}'
}

/// The index of the first character of `s[i..to]` that is no white space.
pub open spec fn trim_start(s: Seq<char>, i: int, to: int) -> int
    decreases to - i,
{
    if i < to && 0 <= i < s.len() && is_whitespace(s[i]) {
        trim_start(s, i + 1, to)
    } else {
        i
    }
}

/// The index after the last character of `s[from..n]` that is no white space.
pub open spec fn trim_end(s: Seq<char>, from: int, n: int) -> int
    decreases n - from,
{
    if from < n && 0 < n <= s.len() && is_whitespace(s[n - 1]) {
        trim_end(s, from, n - 1)
    } else {
        n
    }
}

/// The text `s[from..to]` without the white space at its start and its end.
pub open spec fn trimmed(s: Seq<char>, from: int, to: int) -> Seq<char> {
    let a = trim_start(s, from, to);
    let b = trim_end(s, a, to);
    s.subrange(a, b)
}

/// Whether `c` is white space.
pub fn check_whitespace(c: char) -> (r: bool)
    ensures
        r == is_whitespace(c),
{
    ('\u{9}' <= c && c <= '\u{d}') || c == ' ' || c == '\u{85}' || c == '\u{a0}' || c
        == '\u{1680}' || ('\u{2000}' <= c && c <= '\u{200a}') || c == '\u{2028}' || c
        == '\u{2029}' || c == '\u{202f}' || c == '\u{205f}' || c == '\u{3000}'
}

/// The text `v[from..to]` without the white space at its start and its end.
pub fn trim(v: &Vec<char>, from: usize, to: usize) -> (r: Vec<char>)
    requires
        from <= to <= v.len(),
    ensures
        r@ == trimmed(v@, from as int, to as int),
{
    let mut a: usize = from;
    while a < to && check_whitespace(v[a])
        invariant
            from <= a <= to <= v.len(),
            trim_start(v@, a as int, to as int) == trim_start(v@, from as int, to as int),
        decreases to - a,
    {
        a += 1;
    }
    let mut b: usize = to;
    while a < b && check_whitespace(v[b - 1])
        invariant
            a <= b <= to <= v.len(),
            trim_end(v@, a as int, b as int) == trim_end(v@, a as int, to as int),
        decreases b - a,
    {
        b -= 1;
    }
    subvec(v, a, b)
}

/// The end of the variable whose first delimiter `c0` was read just before
/// `pos`: the index after the first pair of closing delimiters `c_n` that
/// follows a second `c0` at `pos`, if there is such a pair.
///
/// `i` is the index reached and `last` the character before it.
pub open spec fn closing_pair(s: Seq<char>, i: int, last: char, c_n: char) -> Option<int>
    decreases s.len() - i,
{
    if i < 0 || i >= s.len() {
        None
    } else if s[i] == c_n && last == c_n {
        Some(i + 1)
    } else {
        closing_pair(s, i + 1, s[i], c_n)
    }
}

/// The variable that starts with the delimiter `c0` read just before `pos`.
///
/// A variable is written as two `c0`, a name, and two `c_n`. The result is
/// the text of the variable with its delimiters and the index after it;
/// or, where none is written, the text read in vain and the index after
/// that: the first delimiter and the character after it if that is no
/// second `c0`, else everything to the end of the text.
pub open spec fn spec_gather(s: Seq<char>, pos: int, c0: char, c_n: char) -> (
    Result<Seq<char>, Seq<char>>,
    int,
) {
    if pos < 0 || pos >= s.len() {
        (Err(seq![c0]), pos)
    } else if s[pos] != c0 {
        (Err(seq![c0, s[pos]]), pos + 1)
    } else {
        match closing_pair(s, pos + 1, c0, c_n) {
            Some(end) => (Ok(seq![c0] + s.subrange(pos, end)), end),
            None => (Err(seq![c0] + s.subrange(pos, s.len() as int)), s.len() as int),
        }
    }
}

/// The end of a variable lies within the text, behind its four delimiters.
pub proof fn lemma_closing_pair(s: Seq<char>, i: int, last: char, c_n: char)
    requires
        0 <= i <= s.len(),
    ensures
        match closing_pair(s, i, last, c_n) {
            Some(end) => i < end <= s.len() && s[end - 1] == c_n && (if end - 1 == i {
                last
            } else {
                s[end - 2]
            }) == c_n,
            None => true,
        },
    decreases s.len() - i,
{
    if i < s.len() && !(s[i] == c_n && last == c_n) {
        lemma_closing_pair(s, i + 1, s[i], c_n);
    }
}

/// Reads the variable whose first delimiter `c0` was read just before `pos`.
#[verifier::loop_isolation(false)]
pub fn gather_variable(chars: &Vec<char>, pos: usize, c0: char, c_n: char) -> (r: (
    Result<String, String>,
    usize,
))
    ensures
        match (r.0, spec_gather(chars@, pos as int, c0, c_n).0) {
            (Ok(a), Ok(b)) => a@ == b,
            (Err(a), Err(b)) => a@ == b,
            _ => false,
        },
        r.1 == spec_gather(chars@, pos as int, c0, c_n).1,
        pos <= r.1,
        pos <= chars@.len() ==> r.1 <= chars@.len(),
{
    let mut var: Vec<char> = Vec::new();
    var.push(c0);
    if pos >= chars.len() {
        assert(var@ =~= seq![c0]);
        return (Err(string_of(&var)), pos);
    }
    let c = chars[pos];
    var.push(c);
    if c != c0 {
        assert(var@ =~= seq![c0, c]);
        return (Err(string_of(&var)), pos + 1);
    }
    let mut last = c;
    let mut i: usize = pos + 1;
    assert(var@ =~= seq![c0] + chars@.subrange(pos as int, i as int));
    while i < chars.len()
        invariant
            pos < i <= chars.len(),
            var@ == seq![c0] + chars@.subrange(pos as int, i as int),
            closing_pair(chars@, i as int, last, c_n) == closing_pair(chars@, pos + 1, c0, c_n),
        decreases chars.len() - i,
    {
        let c = chars[i];
        var.push(c);
        assert(var@ =~= seq![c0] + chars@.subrange(pos as int, i + 1));
        if c == c_n && last == c_n {
            return (Ok(string_of(&var)), i + 1);
        }
        last = c;
        i += 1;
    }
    (Err(string_of(&var)), i)
}

/// The text `s[i..]` after `acc`, with every variable that the table holds
/// replaced by its value.
///
/// A claim of a variable that is not well written, and a variable that the
/// table does not hold, stay as they are.
pub open spec fn substitute_from(
    s: Seq<char>,
    i: int,
    table: Map<Seq<char>, Seq<char>>,
    acc: Seq<char>,
) -> Seq<char>
    decreases s.len() - i,
{
    if i < 0 || i >= s.len() {
        acc
    } else if s[i] == '{' {
        let (r, end) = spec_gather(s, i + 1, '{', '}');
        let piece = match r {
            Ok(var) => if table.contains_key(trimmed(var, 2, var.len() - 2)) {
                table[trimmed(var, 2, var.len() - 2)]
            } else {
                var
            },
            Err(var) => var,
        };
        if i < end <= s.len() {
            substitute_from(s, end, table, acc + piece)
        } else {
            acc + piece
        }
    } else {
        substitute_from(s, i + 1, table, acc.push(s[i]))
    }
}

/// Replaces in `text` every variable `{{ name }}` that the table holds by
/// its value. White space around the name counts for nothing.
#[verifier::loop_isolation(false)]
pub fn substitute(text: String, code: &VariableTable) -> (r: String)
    requires
        code.wf(),
    ensures
        r@ == substitute_from(text@, 0, code@, Seq::empty()),
{
    let chars = chars_of(text.as_str());
    let mut out: Vec<char> = Vec::new();
    let mut i: usize = 0;
    while i < chars.len()
        invariant
            i <= chars.len(),
            code.wf(),
            substitute_from(chars@, i as int, code@, out@) == substitute_from(
                chars@,
                0,
                code@,
                Seq::empty(),
            ),
        decreases chars.len() - i,
    {
        let c = chars[i];
        if c == '{' {
            let (r, end) = gather_variable(&chars, i + 1, '{', '}');
            proof {
                if i + 1 < chars@.len() && chars@[i + 1] == '{' {
                    lemma_closing_pair(chars@, i + 2, '{', '}');
                }
            }
            match r {
                Ok(var) => {
                    let v = chars_of(var.as_str());
                    assert(v@.len() >= 4);
                    let key = string_of(&trim(&v, 2, v.len() - 2));
                    match code.get(key.as_str()) {
                        Some(value) => {
                            extend(&mut out, &chars_of(value.as_str()));
                        },
                        None => {
                            extend(&mut out, &v);
                        },
                    }
                },
                Err(var) => {
                    extend(&mut out, &chars_of(var.as_str()));
                },
            }
            i = end;
        } else {
            out.push(c);
            i += 1;
        }
    }
    string_of(&out)
}

/// A file whose text is a template.
#[derive(Debug, PartialEq)]
pub struct TemplateFile {
    pub path: String,
}

impl TemplateFile {
    /// The template file at `p`.
    pub fn new(p: String) -> (r: TemplateFile)
        ensures
            r.path == p,
    {
        TemplateFile { path: p }
    }

    /// The path of the file.
    pub fn get_path(&self) -> (r: &String)
        ensures
            *r == self.path,
    {
        &self.path
    }
}

} // verus!
