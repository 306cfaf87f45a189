use crate::text::{chars_of, extend, extend_str, string_of};
use crate::util::filesystem::{file_stem, stem_of};
use vstd::prelude::*;

verus! {

/// Whether the crate `glob` compiles the pattern `pattern`.
pub uninterp spec fn glob_compiles(pattern: Seq<char>) -> bool;

/// Whether the pattern `pattern`, once the crate `glob` has compiled it,
/// matches the whole of `text` under the three options.
pub uninterp spec fn glob_matches(
    pattern: Seq<char>,
    text: Seq<char>,
    case_sensitive: bool,
    literal_separator: bool,
    literal_leading_dot: bool,
) -> bool;

/// Whether two `*` stand side by side in `pattern`.
pub open spec fn has_recursive_wildcard(pattern: Seq<char>) -> bool {
    exists|i: int| 0 <= i && i + 1 < pattern.len() && #[trigger] pattern[i] == '*' && pattern[i + 1] == '*'
}

/// Whether a backslash stands in `s`.
pub open spec fn has_backslash(s: Seq<char>) -> bool {
    exists|i: int| 0 <= i < s.len() && #[trigger] s[i] == '\\'
}

/// Whether compiling `pattern` comes to the same on every machine.
///
/// The crate `glob` asks the machine what separates the parts of a path
/// only where two `*` stand side by side.
pub open spec fn compiles_alike(pattern: Seq<char>) -> bool {
    !has_recursive_wildcard(pattern)
}

/// Whether matching `text` against `pattern` under the options comes to
/// the same on every machine.
///
/// The crate `glob` asks the machine what separates the parts of a path
/// for a pattern with two `*` side by side and for the two options; and
/// on Windows it takes a slash and a backslash for the same character.
pub open spec fn matches_alike(
    pattern: Seq<char>,
    text: Seq<char>,
    literal_separator: bool,
    literal_leading_dot: bool,
) -> bool {
    &&& !has_recursive_wildcard(pattern)
    &&& !has_backslash(pattern)
    &&& !has_backslash(text)
    &&& !literal_separator
    &&& !literal_leading_dot
}

/// Calls `glob::Pattern::new` and, on the pattern that it compiled,
/// `glob::Pattern::matches_with`, which says whether the pattern matches
/// the whole of `text` under the options given. `None` stands for a
/// pattern that does not compile.
///
/// Whether the pattern compiles depends on its text alone, unless two
/// `*` stand side by side in it: only there does `Pattern::new` ask
/// `std::path::is_separator`, whose answer depends on the machine.
/// Whether it matches depends on the arguments alone where
/// `matches_alike` holds. Elsewhere it depends on the machine too:
/// `matches_from` asks `std::path::is_separator` for a pattern with two
/// `*` side by side and for the two options on separators and leading
/// dots, and the comparison of two characters takes a slash and a
/// backslash for the same on Windows.
#[verifier::external_body]
fn pattern_matches(
    pattern: &str,
    text: &str,
    case_sensitive: bool,
    literal_separator: bool,
    literal_leading_dot: bool,
) -> (r: Option<bool>)
    ensures
        compiles_alike(pattern@) ==> (r is Some) == glob_compiles(pattern@),
        matches_alike(pattern@, text@, literal_separator, literal_leading_dot) && r is Some ==> r
            == Some(
            glob_matches(pattern@, text@, case_sensitive, literal_separator, literal_leading_dot),
        ),
{
    match glob::Pattern::new(pattern) {
        Ok(p) => Some(
            p.matches_with(
                text,
                glob::MatchOptions {
                    case_sensitive,
                    require_literal_separator: literal_separator,
                    require_literal_leading_dot: literal_leading_dot,
                },
            ),
        ),
        Err(_) => None,
    }
}

/// Asks the crate `glob` whether it compiles the pattern `pattern`.
pub fn compiles(pattern: &str) -> (r: bool)
    ensures
        compile_answer(pattern@, r),
{
    pattern_matches(pattern, "", false, false, false).is_some()
}

/// Whether a file of the path `path` belongs to a fileset of the pattern
/// `pattern`: the pattern compiles and matches the path, without regard
/// to case.
pub open spec fn spec_matches(pattern: Seq<char>, path: Seq<char>) -> bool {
    glob_compiles(pattern) && glob_matches(pattern, path, false, false, false)
}

/// Whether `flag` can be the answer to the question whether the pattern
/// compiles: where the answer is the same on every machine, it is that
/// answer.
pub open spec fn compile_answer(pattern: Seq<char>, flag: bool) -> bool {
    compiles_alike(pattern) ==> flag == glob_compiles(pattern)
}

/// Whether `flag` can be the answer to the question whether the file
/// belongs to a fileset of the pattern: where the answer is the same on
/// every machine, it is that answer.
pub open spec fn match_answer(pattern: Seq<char>, path: Seq<char>, flag: bool) -> bool {
    matches_alike(pattern, path, false, false) ==> flag == spec_matches(pattern, path)
}

/// Whether `flags` can be the answers to the question which of the
/// patterns compile: one answer for each pattern.
pub open spec fn compile_answers(patterns: Seq<Seq<char>>, flags: Seq<bool>) -> bool {
    &&& flags.len() == patterns.len()
    &&& forall|k: int| 0 <= k < patterns.len() ==> compile_answer(patterns[k], #[trigger] flags[k])
}

/// Whether `flags` can be the answers to the question which of the files
/// belong to a fileset of the pattern: one answer for each file.
pub open spec fn file_answers(pattern: Seq<char>, paths: Seq<Seq<char>>, flags: Seq<bool>) -> bool {
    &&& flags.len() == paths.len()
    &&& forall|f: int| 0 <= f < paths.len() ==> match_answer(pattern, paths[f], #[trigger] flags[f])
}

/// Whether `table` can be the answers to the question which files belong
/// to which filesets: for each pattern one answer for each file.
pub open spec fn match_answers(
    patterns: Seq<Seq<char>>,
    paths: Seq<Seq<char>>,
    table: Seq<Seq<bool>>,
) -> bool {
    &&& table.len() == patterns.len()
    &&& forall|s: int|
        0 <= s < patterns.len() ==> file_answers(patterns[s], paths, #[trigger] table[s])
}

/// Why a fileset cannot be made.
#[derive(Debug, Clone, Copy, PartialEq, Eq, Structural)]
pub enum FilesetError {
    /// The text has no `=` between the name and the pattern.
    MissingSeparator,
    /// The name is empty.
    EmptyName,
    /// The pattern is not well written.
    InvalidPattern,
}

/// A named set of files, given by a pattern that their paths match.
#[derive(Debug, PartialEq)]
pub struct Fileset {
    pub name: String,
    /// The pattern as it is written.
    pub pattern: String,
}

/// One row of a blueprint.
#[derive(Debug, PartialEq)]
pub struct Row {
    pub fileset: String,
    pub name: String,
    pub path: String,
}

/// A row of a blueprint over plain sequences.
pub struct RowView {
    pub fileset: Seq<char>,
    pub name: Seq<char>,
    pub path: Seq<char>,
}

impl View for Row {
    type V = RowView;

    open spec fn view(&self) -> RowView {
        RowView { fileset: self.fileset@, name: self.name@, path: self.path@ }
    }
}

/// The text of a row: its three fields with tabs between them, and a
/// line feed.
pub open spec fn row_text(r: RowView) -> Seq<char> {
    r.fileset + seq!['\t'] + r.name + seq!['\t'] + r.path + seq!['\n']
}

/// The rows of a list over plain sequences.
pub open spec fn rows_view(v: Seq<Row>) -> Seq<RowView> {
    v.map_values(|r: Row| r@)
}

/// The text of the first `n` rows.
pub open spec fn rows_text(rows: Seq<RowView>, n: int) -> Seq<char>
    decreases n,
{
    if n <= 0 {
        Seq::empty()
    } else {
        rows_text(rows, n - 1) + row_text(rows[n - 1])
    }
}

impl Row {
    /// The text of the row.
    pub fn to_string(&self) -> (s: String)
        ensures
            s@ == row_text(self@),
    {
        let mut out = chars_of(self.fileset.as_str());
        out.push('\t');
        extend_str(&mut out, self.name.as_str());
        out.push('\t');
        extend_str(&mut out, self.path.as_str());
        out.push('\n');
        assert(out@ =~= row_text(self@));
        string_of(&out)
    }
}

/// Writes the rows out, one line each.
pub fn rows_to_string(rows: &Vec<Row>) -> (s: String)
    ensures
        s@ == rows_text(rows_view(rows@), rows@.len() as int),
{
    let mut out: Vec<char> = Vec::new();
    let mut i: usize = 0;
    while i < rows.len()
        invariant
            i <= rows.len(),
            out@ == rows_text(rows_view(rows@), i as int),
        decreases rows.len() - i,
    {
        assert(rows_view(rows@)[i as int] == rows@[i as int]@);
        extend_str(&mut out, rows[i].to_string().as_str());
        i += 1;
    }
    string_of(&out)
}

/// The row that a fileset of the name `name` gives for the file `path`:
/// the name of the fileset, the stem of the file, and its path.
pub open spec fn fileset_row(name: Seq<char>, path: Seq<char>) -> RowView {
    RowView { fileset: name, name: file_stem(path), path }
}

/// Whether `row` is the row of one of the filesets for one of the files.
pub open spec fn row_among(row: RowView, names: Seq<Seq<char>>, files: Seq<Seq<char>>) -> bool {
    exists|s: int, f: int|
        0 <= s < names.len() && 0 <= f < files.len() && row == fileset_row(
            #[trigger] names[s],
            #[trigger] files[f],
        )
}

/// Whether every one of `rows[from..]` is the row of one of the filesets
/// for one of the files.
pub open spec fn rows_among(
    rows: Seq<RowView>,
    from: int,
    names: Seq<Seq<char>>,
    files: Seq<Seq<char>>,
) -> bool {
    forall|k: int| from <= k < rows.len() ==> row_among(#[trigger] rows[k], names, files)
}

/// A fileset over plain sequences.
pub struct FilesetView {
    pub name: Seq<char>,
    pub pattern: Seq<char>,
}

impl View for Fileset {
    type V = FilesetView;

    open spec fn view(&self) -> FilesetView {
        FilesetView { name: self.name@, pattern: self.pattern@ }
    }
}

/// The index of the first `=` in `s[i..]`, or the length of the text.
pub open spec fn separator_index(s: Seq<char>, i: int) -> int
    decreases s.len() - i,
{
    if i < 0 || i >= s.len() {
        s.len() as int
    } else if s[i] == '=' {
        i
    } else {
        separator_index(s, i + 1)
    }
}

impl Fileset {
    /// The fileset `name` of the pattern `pattern`, given whether the crate
    /// `glob` compiles that pattern: the fileset is made unless the name
    /// is empty or the pattern does not compile.
    pub fn from_parts(name: &str, pattern: &str, compiles: bool) -> (r: Result<
        Fileset,
        FilesetError,
    >)
        ensures
            match r {
                Ok(set) => name@.len() > 0 && compiles && set@ == (FilesetView {
                    name: name@,
                    pattern: pattern@,
                }),
                Err(e) => if name@.len() == 0 {
                    e == FilesetError::EmptyName
                } else {
                    e == FilesetError::InvalidPattern && !compiles
                },
            },
    {
        if name.unicode_len() == 0 {
            return Err(FilesetError::EmptyName);
        }
        if compiles {
            Ok(Fileset { name: string_of(&chars_of(name)), pattern: string_of(&chars_of(pattern)) })
        } else {
            Err(FilesetError::InvalidPattern)
        }
    }

    /// The fileset `name` of the files that match `pattern`. It is made
    /// if and only if the name is not empty and the crate `glob` compiles
    /// the pattern.
    pub fn new(name: &str, pattern: &str) -> (r: Result<Fileset, FilesetError>)
        ensures
            match r {
                Ok(set) => set@ == (FilesetView { name: name@, pattern: pattern@ }) && name@.len()
                    > 0,
                Err(e) => if name@.len() == 0 {
                    e == FilesetError::EmptyName
                } else {
                    e == FilesetError::InvalidPattern
                },
            },
            compiles_alike(pattern@) ==> (r is Ok <==> name@.len() > 0 && glob_compiles(pattern@)),
    {
        if name.unicode_len() == 0 {
            return Err(FilesetError::EmptyName);
        }
        Self::from_parts(name, pattern, compiles(pattern))
    }

    /// Reads a fileset written as `<name>=<pattern>`; the first `=` parts
    /// the name from the pattern. It is read if and only if there is a
    /// `=`, the name is not empty, and the crate `glob` compiles the
    /// pattern.
    pub fn from_str(s: &str) -> (r: Result<Fileset, FilesetError>)
        ensures
            ({
                let i = separator_index(s@, 0);
                let pattern = s@.subrange(i + 1, s@.len() as int);
                match r {
                    Ok(set) => 0 < i < s@.len() && set@ == (FilesetView {
                        name: s@.subrange(0, i),
                        pattern,
                    }) && compile_answer(pattern, true),
                    Err(FilesetError::MissingSeparator) => i == s@.len(),
                    Err(FilesetError::EmptyName) => i == 0 && s@.len() > 0,
                    Err(FilesetError::InvalidPattern) => 0 < i < s@.len() && compile_answer(
                        pattern,
                        false,
                    ),
                }
            }),
    {
        let v = chars_of(s);
        let mut i: usize = 0;
        while i < v.len() && v[i] != '='
            invariant
                i <= v.len(),
                separator_index(v@, i as int) == separator_index(v@, 0),
            decreases v.len() - i,
        {
            i += 1;
        }
        if i >= v.len() {
            return Err(FilesetError::MissingSeparator);
        }
        let name = crate::text::substring(&v, 0, i);
        let pattern = crate::text::substring(&v, i + 1, v.len());
        Fileset::new(name.as_str(), pattern.as_str())
    }

    /// The name of the fileset.
    pub fn get_name(&self) -> (r: &String)
        ensures
            *r == self.name,
    {
        &self.name
    }

    /// The pattern of the fileset, as it is written.
    pub fn get_pattern(&self) -> (r: &String)
        ensures
            *r == self.pattern,
    {
        &self.pattern
    }

    /// Whether the path `file` matches the pattern, without regard to
    /// case. A pattern that the crate `glob` does not compile matches
    /// nothing.
    pub fn matches(&self, file: &str) -> (r: bool)
        ensures
            match_answer(self.pattern@, file@, r),
    {
        match pattern_matches(self.pattern.as_str(), file, false, false, false) {
            Some(yes) => yes,
            None => false,
        }
    }

    /// The row of the blueprint for the file `file` of this fileset.
    pub fn to_row(&self, file: &str) -> (r: Row)
        ensures
            r@ == fileset_row(self.name@, file@),
    {
        let path = chars_of(file);
        Row {
            fileset: self.name.clone(),
            name: string_of(&stem_of(&path)),
            path: string_of(&path),
        }
    }

    /// The line of the blueprint for the file `file` of this fileset.
    pub fn to_blueprint_string(&self, file: &str) -> (s: String)
        ensures
            s@ == row_text(fileset_row(self.name@, file@)),
    {
        self.to_row(file).to_string()
    }

    /// Asks for each of `files` whether it matches the pattern.
    pub fn match_files(&self, files: &Vec<String>) -> (r: Vec<bool>)
        ensures
            file_answers(self.pattern@, file_paths(files@), r@),
    {
        let mut flags: Vec<bool> = Vec::new();
        let mut i: usize = 0;
        while i < files.len()
            invariant
                i <= files.len(),
                flags@.len() == i,
                forall|f: int|
                    0 <= f < i ==> match_answer(
                        self.pattern@,
                        file_paths(files@)[f],
                        #[trigger] flags@[f],
                    ),
            decreases files.len() - i,
        {
            assert(file_paths(files@)[i as int] == files@[i as int]@);
            flags.push(self.matches(files[i].as_str()));
            i += 1;
        }
        flags
    }

    /// The files among `files` that match the pattern, in their order.
    pub fn collect_files(&self, files: &Vec<String>) -> (r: Vec<String>)
        ensures
            exists|flags: Seq<bool>|
                file_answers(self.pattern@, file_paths(files@), flags) && r@ == #[trigger] kept(
                    files@,
                    flags,
                    files@.len() as int,
                ),
    {
        let flags = self.match_files(files);
        select_files(files, &flags)
    }
}

/// The first `n` of `files` for which the flag is set, in their order.
pub open spec fn kept(files: Seq<String>, flags: Seq<bool>, n: int) -> Seq<String>
    decreases n,
{
    if n <= 0 {
        Seq::empty()
    } else if flags[n - 1] {
        kept(files, flags, n - 1).push(files[n - 1])
    } else {
        kept(files, flags, n - 1)
    }
}

/// The files for which the flag is set, in their order.
pub fn select_files(files: &Vec<String>, flags: &Vec<bool>) -> (r: Vec<String>)
    requires
        flags@.len() == files@.len(),
    ensures
        r@ == kept(files@, flags@, files@.len() as int),
{
    let mut out: Vec<String> = Vec::new();
    let mut i: usize = 0;
    while i < files.len()
        invariant
            i <= files.len(),
            flags@.len() == files@.len(),
            out@ == kept(files@, flags@, i as int),
        decreases files.len() - i,
    {
        if flags[i] {
            out.push(files[i].clone());
        }
        i += 1;
    }
    out
}

/// Whether the answer at place `f` of `flags` is yes; a place that
/// the answers do not reach counts as no.
pub open spec fn answered(flags: Seq<bool>, f: int) -> bool {
    0 <= f < flags.len() && flags[f]
}

/// The answers for the fileset at place `s` of a table of answers; none
/// where the table does not reach.
pub open spec fn answers_for(table: Seq<Seq<bool>>, s: int) -> Seq<bool> {
    if 0 <= s < table.len() {
        table[s]
    } else {
        Seq::empty()
    }
}

/// The rows of the fileset `name` for the first `n` of the files `paths`:
/// one row for each file for which the answer is yes, in their order.
pub open spec fn set_rows(name: Seq<char>, paths: Seq<Seq<char>>, flags: Seq<bool>, n: int) -> Seq<
    RowView,
>
    decreases n,
{
    if n <= 0 {
        Seq::empty()
    } else if answered(flags, n - 1) {
        set_rows(name, paths, flags, n - 1).push(fileset_row(name, paths[n - 1]))
    } else {
        set_rows(name, paths, flags, n - 1)
    }
}

/// The rows of the first `n` filesets `names` for the files `paths`,
/// fileset after fileset, given for each fileset and each file whether
/// the file matches.
pub open spec fn all_rows(
    names: Seq<Seq<char>>,
    paths: Seq<Seq<char>>,
    table: Seq<Seq<bool>>,
    n: int,
) -> Seq<RowView>
    decreases n,
{
    if n <= 0 {
        Seq::empty()
    } else {
        all_rows(names, paths, table, n - 1) + set_rows(
            names[n - 1],
            paths,
            answers_for(table, n - 1),
            paths.len() as int,
        )
    }
}

/// A table of answers over plain sequences.
pub open spec fn table_view(table: Seq<Vec<bool>>) -> Seq<Seq<bool>> {
    table.map_values(|flags: Vec<bool>| flags@)
}

/// The names of the filesets of a list.
pub open spec fn set_names(sets: Seq<Fileset>) -> Seq<Seq<char>> {
    sets.map_values(|s: Fileset| s.name@)
}

/// The patterns of the filesets of a list.
pub open spec fn set_patterns(sets: Seq<Fileset>) -> Seq<Seq<char>> {
    sets.map_values(|s: Fileset| s.pattern@)
}

/// The paths of a list of files.
pub open spec fn file_paths(files: Seq<String>) -> Seq<Seq<char>> {
    files.map_values(|f: String| f@)
}

/// The rows of a fileset are rows of that fileset for files of the list.
pub proof fn lemma_set_rows_among(
    names: Seq<Seq<char>>,
    s: int,
    paths: Seq<Seq<char>>,
    flags: Seq<bool>,
    n: int,
    k: int,
)
    requires
        0 <= s < names.len(),
        0 <= n <= paths.len(),
        0 <= k < set_rows(names[s], paths, flags, n).len(),
    ensures
        exists|f: int|
            0 <= f < n && set_rows(names[s], paths, flags, n)[k] == fileset_row(
                names[s],
                #[trigger] paths[f],
            ),
    decreases n,
{
    if n > 0 {
        let before = set_rows(names[s], paths, flags, n - 1);
        if k < before.len() {
            lemma_set_rows_among(names, s, paths, flags, n - 1, k);
            let f = choose|f: int|
                0 <= f < n - 1 && before[k] == fileset_row(names[s], #[trigger] paths[f]);
            assert(set_rows(names[s], paths, flags, n)[k] == fileset_row(names[s], paths[f]));
        } else {
            assert(set_rows(names[s], paths, flags, n)[k] == fileset_row(names[s], paths[n - 1]));
        }
    }
}

/// The rows of filesets are rows of those filesets for files of the list.
pub proof fn lemma_all_rows_among(
    names: Seq<Seq<char>>,
    paths: Seq<Seq<char>>,
    table: Seq<Seq<bool>>,
    n: int,
)
    requires
        0 <= n <= names.len(),
    ensures
        rows_among(all_rows(names, paths, table, n), 0, names, paths),
    decreases n,
{
    if n > 0 {
        lemma_all_rows_among(names, paths, table, n - 1);
        let before = all_rows(names, paths, table, n - 1);
        let flags = answers_for(table, n - 1);
        let more = set_rows(names[n - 1], paths, flags, paths.len() as int);
        let rows = all_rows(names, paths, table, n);
        assert forall|k: int| 0 <= k < rows.len() implies row_among(
            #[trigger] rows[k],
            names,
            paths,
        ) by {
            if k < before.len() {
                assert(rows[k] == before[k]);
            } else {
                assert(rows[k] == more[k - before.len()]);
                lemma_set_rows_among(
                    names,
                    n - 1,
                    paths,
                    flags,
                    paths.len() as int,
                    k - before.len(),
                );
            }
        }
    }
}

/// Asks for each fileset and each file whether the file matches the
/// pattern of the fileset.
pub fn match_table(sets: &Vec<Fileset>, files: &Vec<String>) -> (r: Vec<Vec<bool>>)
    ensures
        match_answers(set_patterns(sets@), file_paths(files@), table_view(r@)),
{
    let mut table: Vec<Vec<bool>> = Vec::new();
    let mut s: usize = 0;
    while s < sets.len()
        invariant
            s <= sets.len(),
            table@.len() == s,
            forall|k: int|
                0 <= k < s ==> file_answers(
                    set_patterns(sets@)[k],
                    file_paths(files@),
                    #[trigger] table_view(table@)[k],
                ),
        decreases sets.len() - s,
    {
        let flags = sets[s].match_files(files);
        let ghost before = table_view(table@);
        table.push(flags);
        proof {
            assert(set_patterns(sets@)[s as int] == sets@[s as int].pattern@);
            assert(table_view(table@) =~= before.push(flags@));
        }
        s += 1;
    }
    table
}

/// The rows that the filesets `sets` give for the files `files`, given for
/// each fileset and each file whether the file matches: for each fileset
/// in turn, one row for each file that matches, in the order of the files.
pub fn rows_for(sets: &Vec<Fileset>, files: &Vec<String>, table: &Vec<Vec<bool>>) -> (r: Vec<Row>)
    ensures
        rows_view(r@) == all_rows(
            set_names(sets@),
            file_paths(files@),
            table_view(table@),
            sets@.len() as int,
        ),
{
    let mut out: Vec<Row> = Vec::new();
    let ghost names = set_names(sets@);
    let ghost paths = file_paths(files@);
    let ghost answers = table_view(table@);
    let mut s: usize = 0;
    assert(rows_view(out@) =~= all_rows(names, paths, answers, 0));
    while s < sets.len()
        invariant
            s <= sets.len(),
            names == set_names(sets@),
            paths == file_paths(files@),
            answers == table_view(table@),
            rows_view(out@) == all_rows(names, paths, answers, s as int),
        decreases sets.len() - s,
    {
        let ghost before = rows_view(out@);
        let ghost flags = answers_for(answers, s as int);
        let mut f: usize = 0;
        assert(before + set_rows(names[s as int], paths, flags, 0) =~= before);
        while f < files.len()
            invariant
                s < sets.len(),
                f <= files.len(),
                names == set_names(sets@),
                paths == file_paths(files@),
                answers == table_view(table@),
                flags == answers_for(answers, s as int),
                rows_view(out@) == before + set_rows(names[s as int], paths, flags, f as int),
            decreases files.len() - f,
        {
            let yes = s < table.len() && f < table[s].len() && table[s][f];
            proof {
                if s < table@.len() {
                    assert(answers[s as int] == table@[s as int]@);
                }
                assert(yes == answered(flags, f as int));
            }
            if yes {
                let row = sets[s].to_row(files[f].as_str());
                proof {
                    assert(names[s as int] == sets@[s as int].name@);
                    assert(paths[f as int] == files@[f as int]@);
                    assert(rows_view(out@.push(row)) =~= rows_view(out@).push(row@));
                    assert((before + set_rows(names[s as int], paths, flags, f as int)).push(row@)
                        =~= before + set_rows(names[s as int], paths, flags, f + 1));
                }
                out.push(row);
            }
            f += 1;
        }
        assert(paths.len() == files@.len());
        s += 1;
    }
    out
}

/// The rows that the filesets `sets` give for the files `files`: for each
/// fileset in turn, one row for each file that it matches, in the order
/// of the files.
pub fn fileset_rows(sets: &Vec<Fileset>, files: &Vec<String>) -> (r: Vec<Row>)
    ensures
        exists|table: Seq<Seq<bool>>|
            match_answers(set_patterns(sets@), file_paths(files@), table) && rows_view(r@)
                == #[trigger] all_rows(
                set_names(sets@),
                file_paths(files@),
                table,
                sets@.len() as int,
            ),
        rows_among(rows_view(r@), 0, set_names(sets@), file_paths(files@)),
{
    let table = match_table(sets, files);
    let r = rows_for(sets, files, &table);
    proof {
        lemma_all_rows_among(
            set_names(sets@),
            file_paths(files@),
            table_view(table@),
            sets@.len() as int,
        );
    }
    r
}

/// Asks for each of the patterns `patterns` whether the crate `glob`
/// compiles it.
pub fn compile_all(patterns: &Vec<String>) -> (r: Vec<bool>)
    ensures
        compile_answers(file_paths(patterns@), r@),
{
    let mut out: Vec<bool> = Vec::new();
    let mut k: usize = 0;
    while k < patterns.len()
        invariant
            k <= patterns.len(),
            out@.len() == k,
            forall|i: int|
                0 <= i < k ==> compile_answer(file_paths(patterns@)[i], #[trigger] out@[i]),
        decreases patterns.len() - k,
    {
        assert(file_paths(patterns@)[k as int] == patterns@[k as int]@);
        out.push(compiles(patterns[k].as_str()));
        k += 1;
    }
    out
}

/// The answers that are the same on every machine are the answers of
/// the crate `glob` to the question which patterns compile.
pub open spec fn named_compiles(patterns: Seq<Seq<char>>) -> Seq<bool> {
    Seq::new(patterns.len(), |k: int| glob_compiles(patterns[k]))
}

/// The answers of the crate `glob` to the question which files belong
/// to which filesets.
pub open spec fn named_matches(patterns: Seq<Seq<char>>, paths: Seq<Seq<char>>) -> Seq<Seq<bool>> {
    Seq::new(
        patterns.len(),
        |s: int| Seq::new(paths.len(), |f: int| spec_matches(patterns[s], paths[f])),
    )
}

/// Whether every one of the patterns compiles alike on every machine.
pub open spec fn all_compile_alike(patterns: Seq<Seq<char>>) -> bool {
    forall|k: int| 0 <= k < patterns.len() ==> compiles_alike(#[trigger] patterns[k])
}

/// Whether every one of the patterns matches every one of the paths
/// alike on every machine.
pub open spec fn all_match_alike(patterns: Seq<Seq<char>>, paths: Seq<Seq<char>>) -> bool {
    forall|s: int, f: int|
        0 <= s < patterns.len() && 0 <= f < paths.len() ==> matches_alike(
            #[trigger] patterns[s],
            #[trigger] paths[f],
            false,
            false,
        )
}

/// Where every pattern compiles alike on every machine, the answers are
/// those of the crate `glob`.
pub proof fn lemma_compiles_named(patterns: Seq<Seq<char>>, flags: Seq<bool>)
    requires
        compile_answers(patterns, flags),
        all_compile_alike(patterns),
    ensures
        flags == named_compiles(patterns),
{
    assert forall|k: int| 0 <= k < flags.len() implies flags[k] == named_compiles(patterns)[k] by {
        assert(compile_answer(patterns[k], flags[k]));
    }
    assert(flags =~= named_compiles(patterns));
}

/// Where every pattern matches every path alike on every machine, the
/// answers are those of the crate `glob`.
pub proof fn lemma_matches_named(
    patterns: Seq<Seq<char>>,
    paths: Seq<Seq<char>>,
    table: Seq<Seq<bool>>,
)
    requires
        match_answers(patterns, paths, table),
        all_match_alike(patterns, paths),
    ensures
        table == named_matches(patterns, paths),
{
    let named = named_matches(patterns, paths);
    assert forall|s: int| 0 <= s < table.len() implies table[s] == named[s] by {
        assert(file_answers(patterns[s], paths, table[s]));
        assert forall|f: int| 0 <= f < paths.len() implies table[s][f] == named[s][f] by {
            assert(match_answer(patterns[s], paths[f], table[s][f]));
        }
        assert(table[s] =~= named[s]);
    }
    assert(table =~= named);
}

} // verus!
