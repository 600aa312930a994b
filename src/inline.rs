//! The module tree as a set of source files, the resolver that maps a
//! declared module to its file, and what inlining a module produces.

use vstd::prelude::*;
use crate::prune::view_lines;
use crate::rules::{declared_name, is_comment, is_declaration};
use crate::text::{chars_of, string_of, tabs};

verus! {

/// One source file of the module tree: its path and its lines.
pub struct SourceFile {
    pub path: String,
    pub lines: Vec<String>,
}

/// Why a module tree could not be bundled.
#[derive(Debug, Clone, PartialEq, Eq)]
pub enum BundleError {
    /// A pattern of the line rules does not compile.
    BadPattern,
    /// Neither the flat file nor the directory form of a declared module
    /// exists; both paths that were tried are given.
    Unresolved { flat: String, index: String },
    /// A declaration line gives no module name or has no terminator.
    MalformedDeclaration,
    /// A test-only block opens and its braces never balance again.
    UnclosedTestBlock,
    /// A chain of declarations resolves more modules than there are files:
    /// the tree has a cycle.
    TooDeep,
}

/// A `BundleError` as contracts speak of it, paths as characters.
pub enum Fault {
    BadPattern,
    Unresolved { flat: Seq<char>, index: Seq<char> },
    MalformedDeclaration,
    UnclosedTestBlock,
    TooDeep,
}

impl View for BundleError {
    type V = Fault;

    open spec fn view(&self) -> Fault {
        match self {
            BundleError::BadPattern => Fault::BadPattern,
            BundleError::Unresolved { flat, index } => Fault::Unresolved {
                flat: flat@,
                index: index@,
            },
            BundleError::MalformedDeclaration => Fault::MalformedDeclaration,
            BundleError::UnclosedTestBlock => Fault::UnclosedTestBlock,
            BundleError::TooDeep => Fault::TooDeep,
        }
    }
}

/// The lines of the first file whose path is `path`.
pub open spec fn file_at(files: Seq<SourceFile>, path: Seq<char>) -> Option<Seq<Seq<char>>>
    decreases files.len(),
{
    if files.len() == 0 {
        None
    } else if files[0].path@ == path {
        Some(view_lines(files[0].lines@))
    } else {
        file_at(files.drop_first(), path)
    }
}

/// The flat form of module `name` under `dir`.
pub open spec fn flat_path(dir: Seq<char>, name: Seq<char>) -> Seq<char> {
    dir + name + ".rs"@
}

/// The directory form of module `name` under `dir`.
pub open spec fn index_path(dir: Seq<char>, name: Seq<char>) -> Seq<char> {
    dir + name + "/mod.rs"@
}

/// The directory that holds the submodules of a module in directory form.
pub open spec fn child_dir(dir: Seq<char>, name: Seq<char>) -> Seq<char> {
    dir + name + "/"@
}

/// The failure to find module `name` under `dir`, naming both paths tried.
pub open spec fn unresolved_fault(dir: Seq<char>, name: Seq<char>) -> Fault {
    Fault::Unresolved { flat: flat_path(dir, name), index: index_path(dir, name) }
}

/// The lines of module `name` under `dir` and the directory of its
/// submodules. Where both forms exist, the directory form is taken.
pub open spec fn resolve_module(files: Seq<SourceFile>, dir: Seq<char>, name: Seq<char>) -> Option<
    (Seq<Seq<char>>, Seq<char>),
> {
    match file_at(files, index_path(dir, name)) {
        Some(lines) => Some((lines, child_dir(dir, name))),
        None => match file_at(files, flat_path(dir, name)) {
            Some(lines) => Some((lines, dir)),
            None => None,
        },
    }
}

/// What writing `line` at nesting `depth` adds to the buffer: nothing for a
/// comment, else the line indented by one tab per level.
pub open spec fn emitted(line: Seq<char>, depth: nat) -> Seq<Seq<char>> {
    if is_comment(line) {
        Seq::empty()
    } else {
        seq![tabs(depth) + line]
    }
}

/// The position of the last occurrence of `c` in `s`.
pub open spec fn last_index_of(s: Seq<char>, c: char) -> Option<int>
    decreases s.len(),
{
    if s.len() == 0 {
        None
    } else if s.last() == c {
        Some(s.len() - 1)
    } else {
        last_index_of(s.drop_last(), c)
    }
}

/// A declaration line turned into a block opener: the text before its last
/// `;`, followed by ` {`.
pub open spec fn opener_of(line: Seq<char>) -> Option<Seq<char>> {
    match last_index_of(line, ';') {
        Some(k) => Some(line.take(k) + " {"@),
        None => None,
    }
}

/// The nested block that inlining module `name` under `dir` at `depth`
/// produces, with `fuel` bounding how deep declarations may nest.
pub open spec fn inline_module(
    files: Seq<SourceFile>,
    dir: Seq<char>,
    name: Seq<char>,
    depth: nat,
    fuel: nat,
) -> Result<Seq<Seq<char>>, Fault>
    decreases fuel, 0nat, 0nat,
{
    match resolve_module(files, dir, name) {
        None => Err(unresolved_fault(dir, name)),
        Some((lines, sub)) => if fuel == 0 {
            Err(Fault::TooDeep)
        } else {
            inline_lines(files, sub, lines, depth, (fuel - 1) as nat)
        },
    }
}

/// The inlined form of the lines of one file, in order.
pub open spec fn inline_lines(
    files: Seq<SourceFile>,
    dir: Seq<char>,
    lines: Seq<Seq<char>>,
    depth: nat,
    fuel: nat,
) -> Result<Seq<Seq<char>>, Fault>
    decreases fuel, 2nat, lines.len(),
{
    if lines.len() == 0 {
        Ok(Seq::empty())
    } else {
        match inline_lines(files, dir, lines.drop_last(), depth, fuel) {
            Err(e) => Err(e),
            Ok(front) => match inline_line(files, dir, lines.last(), depth, fuel) {
                Err(e) => Err(e),
                Ok(back) => Ok(front + back),
            },
        }
    }
}

/// The inlined form of one line: a declaration becomes the submodule's block,
/// opened and closed at `depth`; any other line is written as it is.
pub open spec fn inline_line(
    files: Seq<SourceFile>,
    dir: Seq<char>,
    line: Seq<char>,
    depth: nat,
    fuel: nat,
) -> Result<Seq<Seq<char>>, Fault>
    decreases fuel, 1nat, 0nat,
{
    if is_declaration(line) {
        match (declared_name(line), opener_of(line)) {
            (Some(name), Some(opener)) => match inline_module(
                files,
                dir,
                name,
                depth + 1,
                fuel,
            ) {
                Err(e) => Err(e),
                Ok(body) => Ok(emitted(opener, depth) + body + emitted("}"@, depth)),
            },
            _ => Err(Fault::MalformedDeclaration),
        }
    } else {
        Ok(emitted(line, depth))
    }
}

/// Where a module exists both as a flat file and in directory form, the
/// directory form is the one resolved, its directory holds the submodules,
/// and its lines are the ones inlined.
pub proof fn lemma_directory_form_wins(
    files: Seq<SourceFile>,
    dir: Seq<char>,
    name: Seq<char>,
    depth: nat,
    fuel: nat,
)
    requires
        file_at(files, flat_path(dir, name)) is Some,
        file_at(files, index_path(dir, name)) is Some,
        fuel > 0,
    ensures
        resolve_module(files, dir, name) == Some(
            (file_at(files, index_path(dir, name))->0, child_dir(dir, name)),
        ),
        inline_module(files, dir, name, depth, fuel) == inline_lines(
            files,
            child_dir(dir, name),
            file_at(files, index_path(dir, name))->0,
            depth,
            (fuel - 1) as nat,
        ),
{
}

proof fn lemma_plain_lines_indented(
    files: Seq<SourceFile>,
    dir: Seq<char>,
    lines: Seq<Seq<char>>,
    depth: nat,
    fuel: nat,
)
    requires
        forall|k: int|
            0 <= k < lines.len() ==> !is_declaration(#[trigger] lines[k]) && !is_comment(
                lines[k],
            ),
    ensures
        inline_lines(files, dir, lines, depth, fuel) == Ok::<Seq<Seq<char>>, Fault>(
            lines.map_values(|l: Seq<char>| tabs(depth) + l),
        ),
    decreases lines.len(),
{
    if lines.len() > 0 {
        let f = lines.drop_last();
        assert forall|k: int| 0 <= k < f.len() implies !is_declaration(#[trigger] f[k])
            && !is_comment(f[k]) by {
            assert(f[k] == lines[k]);
        }
        lemma_plain_lines_indented(files, dir, f, depth, fuel);
        assert(!is_declaration(lines.last()) && !is_comment(lines.last()));
        assert(inline_line(files, dir, lines.last(), depth, fuel) == Ok::<
            Seq<Seq<char>>,
            Fault,
        >(seq![tabs(depth) + lines.last()]));
        assert(f.map_values(|l: Seq<char>| tabs(depth) + l) + seq![tabs(depth) + lines.last()]
            =~= lines.map_values(|l: Seq<char>| tabs(depth) + l));
    } else {
        assert(lines.map_values(|l: Seq<char>| tabs(depth) + l) =~= Seq::<Seq<char>>::empty());
    }
}

/// A module that declares no submodules and holds no comments is emitted
/// line for line, each line indented by exactly its nesting depth.
pub proof fn lemma_leaf_module_indented(
    files: Seq<SourceFile>,
    dir: Seq<char>,
    name: Seq<char>,
    depth: nat,
    fuel: nat,
    lines: Seq<Seq<char>>,
    sub: Seq<char>,
)
    requires
        fuel > 0,
        resolve_module(files, dir, name) == Some((lines, sub)),
        forall|k: int|
            0 <= k < lines.len() ==> !is_declaration(#[trigger] lines[k]) && !is_comment(
                lines[k],
            ),
    ensures
        inline_module(files, dir, name, depth, fuel) == Ok::<Seq<Seq<char>>, Fault>(
            lines.map_values(|l: Seq<char>| tabs(depth) + l),
        ),
{
    lemma_plain_lines_indented(files, sub, lines, depth, (fuel - 1) as nat);
}

/// A declaration line that inlines without error yields the submodule's
/// block: its opener and closer at the declaring line's depth, and the
/// submodule inlined one level deeper between them.
pub proof fn lemma_declaration_nests_one_deeper(
    files: Seq<SourceFile>,
    dir: Seq<char>,
    line: Seq<char>,
    depth: nat,
    fuel: nat,
)
    requires
        is_declaration(line),
        inline_line(files, dir, line, depth, fuel) is Ok,
    ensures
        declared_name(line) is Some,
        opener_of(line) is Some,
        inline_module(files, dir, declared_name(line)->0, depth + 1, fuel) is Ok,
        inline_line(files, dir, line, depth, fuel)->Ok_0 == emitted(opener_of(line)->0, depth)
            + inline_module(files, dir, declared_name(line)->0, depth + 1, fuel)->Ok_0
            + emitted("}"@, depth),
{
}

/// Each line with `k` more tabs in front.
pub open spec fn indented(lines: Seq<Seq<char>>, k: nat) -> Seq<Seq<char>> {
    lines.map_values(|l: Seq<char>| tabs(k) + l)
}

/// An inlining outcome with `k` more tabs in front of each line; an error
/// stays as it is.
pub open spec fn shifted(r: Result<Seq<Seq<char>>, Fault>, k: nat) -> Result<
    Seq<Seq<char>>,
    Fault,
> {
    match r {
        Ok(v) => Ok(indented(v, k)),
        Err(e) => Err(e),
    }
}

proof fn lemma_tabs_add(d: nat, k: nat)
    ensures
        tabs(k) + tabs(d) == tabs(d + k),
    decreases d,
{
    if d == 0 {
        assert(tabs(k) + tabs(0) =~= tabs(k));
    } else {
        lemma_tabs_add((d - 1) as nat, k);
        assert(tabs(k) + tabs(d) =~= (tabs(k) + tabs((d - 1) as nat)).push('\t'));
        assert(tabs(d + k) == tabs((d + k - 1) as nat).push('\t'));
    }
}

proof fn lemma_shift_emitted(line: Seq<char>, d: nat, k: nat)
    ensures
        emitted(line, d + k) == indented(emitted(line, d), k),
{
    lemma_tabs_add(d, k);
    if is_comment(line) {
        assert(indented(emitted(line, d), k) =~= Seq::<Seq<char>>::empty());
    } else {
        assert(tabs(k) + (tabs(d) + line) =~= tabs(d + k) + line);
        assert(indented(emitted(line, d), k) =~= seq![tabs(d + k) + line]);
    }
}

proof fn lemma_indented_append(a: Seq<Seq<char>>, b: Seq<Seq<char>>, k: nat)
    ensures
        indented(a + b, k) == indented(a, k) + indented(b, k),
{
    assert(indented(a + b, k) =~= indented(a, k) + indented(b, k));
}

/// Inlining a module `k` levels deeper indents every line it yields by
/// exactly `k` more tabs and changes nothing else, errors included. With
/// each line written after one tab per level and each submodule inlined one
/// level below its declaration, every line of the bundle carries exactly as
/// many tabs as the declaration depth it comes from.
pub proof fn lemma_indentation_follows_nesting(
    files: Seq<SourceFile>,
    dir: Seq<char>,
    name: Seq<char>,
    depth: nat,
    k: nat,
    fuel: nat,
)
    ensures
        inline_module(files, dir, name, depth + k, fuel) == shifted(
            inline_module(files, dir, name, depth, fuel),
            k,
        ),
    decreases fuel, 0nat, 0nat,
{
    match resolve_module(files, dir, name) {
        None => {},
        Some((lines, sub)) => {
            if fuel > 0 {
                lemma_shift_lines(files, sub, lines, depth, k, (fuel - 1) as nat);
            }
        },
    }
}

proof fn lemma_shift_lines(
    files: Seq<SourceFile>,
    dir: Seq<char>,
    lines: Seq<Seq<char>>,
    depth: nat,
    k: nat,
    fuel: nat,
)
    ensures
        inline_lines(files, dir, lines, depth + k, fuel) == shifted(
            inline_lines(files, dir, lines, depth, fuel),
            k,
        ),
    decreases fuel, 2nat, lines.len(),
{
    if lines.len() == 0 {
        assert(indented(Seq::<Seq<char>>::empty(), k) =~= Seq::<Seq<char>>::empty());
    } else {
        lemma_shift_lines(files, dir, lines.drop_last(), depth, k, fuel);
        lemma_shift_line(files, dir, lines.last(), depth, k, fuel);
        match (
            inline_lines(files, dir, lines.drop_last(), depth, fuel),
            inline_line(files, dir, lines.last(), depth, fuel),
        ) {
            (Ok(f), Ok(b)) => {
                lemma_indented_append(f, b, k);
            },
            _ => {},
        }
    }
}

proof fn lemma_shift_line(
    files: Seq<SourceFile>,
    dir: Seq<char>,
    line: Seq<char>,
    depth: nat,
    k: nat,
    fuel: nat,
)
    ensures
        inline_line(files, dir, line, depth + k, fuel) == shifted(
            inline_line(files, dir, line, depth, fuel),
            k,
        ),
    decreases fuel, 1nat, 0nat,
{
    if is_declaration(line) {
        match (declared_name(line), opener_of(line)) {
            (Some(name), Some(opener)) => {
                lemma_indentation_follows_nesting(files, dir, name, depth + 1, k, fuel);
                assert(depth + k + 1 == depth + 1 + k);
                lemma_shift_emitted(opener, depth, k);
                lemma_shift_emitted("}"@, depth, k);
                match inline_module(files, dir, name, depth + 1, fuel) {
                    Ok(body) => {
                        lemma_indented_append(emitted(opener, depth), body, k);
                        lemma_indented_append(
                            emitted(opener, depth) + body,
                            emitted("}"@, depth),
                            k,
                        );
                    },
                    Err(_) => {},
                }
            },
            _ => {},
        }
    } else {
        lemma_shift_emitted(line, depth, k);
    }
}

/// Once a prefix of the lines fails to inline, every longer prefix fails
/// with the same error.
pub proof fn lemma_inline_error_persists(
    files: Seq<SourceFile>,
    dir: Seq<char>,
    lines: Seq<Seq<char>>,
    i: int,
    j: int,
    depth: nat,
    fuel: nat,
)
    requires
        0 <= i <= j <= lines.len(),
        inline_lines(files, dir, lines.take(i), depth, fuel) is Err,
    ensures
        inline_lines(files, dir, lines.take(j), depth, fuel) == inline_lines(
            files,
            dir,
            lines.take(i),
            depth,
            fuel,
        ),
    decreases j - i,
{
    if j > i {
        lemma_inline_error_persists(files, dir, lines, i, j - 1, depth, fuel);
        assert(lines.take(j).drop_last() =~= lines.take(j - 1));
    }
}

/// The text of an optional string.
pub open spec fn opt_view(o: Option<String>) -> Option<Seq<char>> {
    match o {
        Some(t) => Some(t@),
        None => None,
    }
}

/// What to do with `line`, given whether it is a declaration and the module
/// name it declares: `None` to write it as it is; for a declaration, its
/// block opener and the module's name; an error where a declaration has no
/// name or no terminator.
pub open spec fn line_plan(line: Seq<char>, is_decl: bool, name: Option<Seq<char>>) -> Result<
    Option<(Seq<char>, Seq<char>)>,
    Fault,
> {
    if !is_decl {
        Ok(None)
    } else {
        match (name, opener_of(line)) {
            (Some(n), Some(o)) => Ok(Some((o, n))),
            _ => Err(Fault::MalformedDeclaration),
        }
    }
}

/// What to do with `line`, given whether it is a declaration and the module
/// name it declares.
pub fn plan_line(line: &str, is_decl: bool, name: Option<String>) -> (r: Result<
    Option<(String, String)>,
    BundleError,
>)
    ensures
        match line_plan(line@, is_decl, opt_view(name)) {
            Ok(None) => r matches Ok(None),
            Ok(Some((o, n))) => r matches Ok(Some((ro, rn))) && ro@ == o && rn@ == n,
            Err(f) => r matches Err(e) && e@ == f,
        },
{
    if !is_decl {
        return Ok(None);
    }
    match name {
        None => Err(BundleError::MalformedDeclaration),
        Some(n) => match declaration_opener(line) {
            None => Err(BundleError::MalformedDeclaration),
            Some(o) => Ok(Some((o, n))),
        },
    }
}

/// The index of the first file whose path is `path`.
pub fn find_file(files: &Vec<SourceFile>, path: &String) -> (r: Option<usize>)
    ensures
        match r {
            Some(i) => i < files@.len() && file_at(files@, path@) == Some(
                view_lines(files@[i as int].lines@),
            ),
            None => file_at(files@, path@) is None,
        },
{
    let mut i: usize = 0;
    assert(files@.skip(0) =~= files@);
    while i < files.len()
        invariant
            i <= files@.len(),
            file_at(files@, path@) == file_at(files@.skip(i as int), path@),
        decreases files.len() - i,
    {
        let ghost rest = files@.skip(i as int);
        assert(rest[0] == files@[i as int]);
        if files[i].path == *path {
            return Some(i);
        }
        assert(rest.drop_first() =~= files@.skip(i + 1));
        i = i + 1;
    }
    None
}

/// The file that defines module `name` under `dir`, and the directory of its
/// submodules; where neither form exists, an error naming both paths.
pub fn resolve(files: &Vec<SourceFile>, dir: &str, name: &str) -> (r: Result<
    (usize, String),
    BundleError,
>)
    ensures
        match r {
            Ok((i, sub)) => i < files@.len() && resolve_module(files@, dir@, name@) == Some(
                (view_lines(files@[i as int].lines@), sub@),
            ),
            Err(e) => resolve_module(files@, dir@, name@) is None && e@ == unresolved_fault(
                dir@,
                name@,
            ),
        },
{
    let mut index = dir.to_owned();
    index.append(name);
    let mut sub = index.clone();
    index.append("/mod.rs");
    sub.append("/");
    match find_file(files, &index) {
        Some(i) => {
            return Ok((i, sub));
        },
        None => {},
    }
    let mut flat = dir.to_owned();
    flat.append(name);
    flat.append(".rs");
    match find_file(files, &flat) {
        Some(i) => Ok((i, dir.to_owned())),
        None => Err(BundleError::Unresolved { flat, index }),
    }
}

/// A declaration line turned into a block opener, or `None` where it has no `;`.
pub fn declaration_opener(line: &str) -> (r: Option<String>)
    ensures
        match r {
            Some(o) => opener_of(line@) == Some(o@),
            None => opener_of(line@) is None,
        },
{
    let cs = chars_of(line);
    let mut k: usize = cs.len();
    assert(cs@.take(k as int) =~= cs@);
    while k > 0 && cs[k - 1] != ';'
        invariant
            k <= cs@.len(),
            last_index_of(cs@, ';') == last_index_of(cs@.take(k as int), ';'),
        decreases k,
    {
        assert(cs@.take(k as int).drop_last() =~= cs@.take(k - 1));
        k = k - 1;
    }
    if k == 0 {
        assert(cs@.take(0) =~= Seq::<char>::empty());
        return None;
    }
    assert(cs@.take(k as int).last() == cs@[k - 1]);
    let mut prefix: Vec<char> = Vec::new();
    let mut m: usize = 0;
    while m < k - 1
        invariant
            m <= k - 1,
            k <= cs@.len(),
            prefix@ == cs@.take(m as int),
        decreases k - 1 - m,
    {
        prefix.push(cs[m]);
        m = m + 1;
        assert(prefix@ =~= cs@.take(m as int));
    }
    let mut o = string_of(&prefix);
    o.append(" {");
    Some(o)
}

} // verus!
