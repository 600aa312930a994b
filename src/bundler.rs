//! The bundler: an output buffer of lines and the pipeline that fills it.

use vstd::prelude::*;
use crate::inline::{
    emitted, plan_line, inline_line, inline_lines, inline_module,
    lemma_inline_error_persists, resolve, resolve_module, BundleError, Fault, SourceFile,
};
use crate::prune::{prune_test_blocks, pruned, view_lines};
use crate::rules::{
    check_rules, comment_line, declaration_line, declaration_name, is_comment, rules_compile,
};
use crate::text::{
    all_words, chars_of, flatten, ink, join_space, lemma_join_trimmed_keeps_ink,
    lemma_join_trimmed_keeps_words, replace_token, replace_tokens, string_of, tabs, trim_chars,
    trim_lines, words,
};

verus! {

/// Configuration of one bundling run and its output buffer.
pub struct Bundler {
    /// Name of the wrapper module that holds the library.
    pub crate_name: String,
    /// Path of the entry-point file.
    pub bin_file: String,
    /// Path of the output file.
    pub target_file: String,
    /// The output buffer, one entry per line.
    pub file_buf: Vec<String>,
    /// Whether the library block is collapsed to one line.
    pub one_line: bool,
    /// Path of the banner file, if any.
    pub banner_file: Option<String>,
}

/// The text of a buffer: each line followed by a line break.
pub open spec fn render(lines: Seq<Seq<char>>) -> Seq<char>
    decreases lines.len(),
{
    if lines.len() == 0 {
        Seq::empty()
    } else {
        render(lines.drop_last()) + lines.last() + "\n"@
    }
}

/// What writing each of `lines` at `depth` adds to the buffer, comments left out.
pub open spec fn emitted_all(lines: Seq<Seq<char>>, depth: nat) -> Seq<Seq<char>>
    decreases lines.len(),
{
    if lines.len() == 0 {
        Seq::empty()
    } else {
        emitted_all(lines.drop_last(), depth) + emitted(lines.last(), depth)
    }
}

/// The replacement for the crate-rooted path prefix.
pub open spec fn qualified_root(crate_name: Seq<char>) -> Seq<char> {
    "crate::"@ + crate_name + "::"@
}

/// Every `crate::` that starts a path requalified through the wrapper module
/// `crate_name`; `crate::` at the end of a longer identifier stays.
pub open spec fn requalified(lines: Seq<Seq<char>>, crate_name: Seq<char>) -> Seq<Seq<char>> {
    lines.map_values(|l: Seq<char>| replace_tokens(l, "crate::"@, qualified_root(crate_name)))
}

/// The buffer collapsed to one line: trimmed lines joined by single spaces.
pub open spec fn minified(lines: Seq<Seq<char>>) -> Seq<Seq<char>> {
    seq![join_space(trim_lines(lines))]
}

/// Minifying yields one line that holds exactly the non-white characters of
/// the buffer's lines, in order, and exactly their words: no word is added,
/// removed, merged or split; only white space changes.
pub proof fn lemma_minify_keeps_tokens(lines: Seq<Seq<char>>)
    ensures
        minified(lines).len() == 1,
        ink(minified(lines)[0]) == ink(flatten(lines)),
        words(minified(lines)[0]) == all_words(lines),
{
    lemma_join_trimmed_keeps_ink(lines);
    lemma_join_trimmed_keeps_words(lines);
}

proof fn lemma_prefix_of_append(a: Seq<Seq<char>>, b: Seq<Seq<char>>)
    ensures
        a.is_prefix_of(a + b),
{
    assert((a + b).subrange(0, a.len() as int) =~= a);
}

proof fn lemma_prefix_trans(a: Seq<Seq<char>>, b: Seq<Seq<char>>, c: Seq<Seq<char>>)
    requires
        a.is_prefix_of(b),
        b.is_prefix_of(c),
    ensures
        a.is_prefix_of(c),
{
    assert(c.subrange(0, a.len() as int) =~= b.subrange(0, a.len() as int));
}

/// The line that opens the wrapper module.
pub open spec fn wrapper_opener(crate_name: Seq<char>) -> Seq<char> {
    "pub mod "@ + crate_name + " {"@
}

/// How deep module declarations may nest among `n` files.
pub open spec fn depth_limit(n: nat) -> nat {
    if n < u32::MAX {
        n
    } else {
        (u32::MAX - 1) as nat
    }
}

/// The finished library block: `start`, then the wrapper module holding the
/// inlined library root, test blocks pruned and `crate::` requalified.
pub open spec fn library_lines(
    files: Seq<SourceFile>,
    crate_name: Seq<char>,
    start: Seq<Seq<char>>,
) -> Result<Seq<Seq<char>>, Fault> {
    match inline_module(files, "src/"@, "lib"@, 1, depth_limit(files.len())) {
        Err(e) => Err(e),
        Ok(body) => match pruned(
            start + emitted(wrapper_opener(crate_name), 0) + body + emitted("}"@, 0),
        ) {
            None => Err(Fault::UnclosedTestBlock),
            Some(kept) => Ok(requalified(kept, crate_name)),
        },
    }
}

/// The last buffer of a run: the library block, collapsed where asked, then
/// the entry-point lines without their comments.
pub open spec fn final_lines(
    library: Seq<Seq<char>>,
    one_line: bool,
    bin_lines: Seq<Seq<char>>,
) -> Seq<Seq<char>> {
    (if one_line {
        minified(library)
    } else {
        library
    }) + emitted_all(bin_lines, 0)
}

/// The banner's lines: those given, where a banner file is configured.
pub open spec fn banner_view(banner_file: Option<String>, banner: Option<&Vec<String>>) -> Option<
    Seq<Seq<char>>,
> {
    match (banner_file, banner) {
        (Some(_), Some(b)) => Some(view_lines(b@)),
        _ => None,
    }
}

/// The text written before the main block: the buffer so far and the
/// banner's lines, comments kept, where a banner is given.
pub open spec fn banner_text(pre: Seq<Seq<char>>, banner: Option<Seq<Seq<char>>>) -> Seq<char> {
    match banner {
        Some(b) => render(pre + b) + "\n"@,
        None => Seq::empty(),
    }
}

/// The lines that the main block starts from: what the buffer held, unless a
/// banner flushed it.
pub open spec fn main_start(pre: Seq<Seq<char>>, banner: Option<Seq<Seq<char>>>) -> Seq<Seq<char>> {
    match banner {
        Some(b) => Seq::empty(),
        None => pre,
    }
}

impl Bundler {
    /// The lines of the output buffer.
    pub open spec fn buf(&self) -> Seq<Seq<char>> {
        view_lines(self.file_buf@)
    }

    /// The configuration of `self` and `other` is the same.
    pub open spec fn same_config(&self, other: &Bundler) -> bool {
        self.crate_name == other.crate_name && self.bin_file == other.bin_file
            && self.target_file == other.target_file && self.one_line == other.one_line
            && self.banner_file == other.banner_file
    }

    /// A bundler with an empty buffer and no banner.
    pub fn new(crate_name: &str, bin_file: &str, target_file: &str, one_line: bool) -> (r: Bundler)
        ensures
            r.crate_name@ == crate_name@,
            r.bin_file@ == bin_file@,
            r.target_file@ == target_file@,
            r.one_line == one_line,
            r.banner_file is None,
            r.file_buf@.len() == 0,
    {
        Bundler {
            crate_name: crate_name.to_owned(),
            bin_file: bin_file.to_owned(),
            target_file: target_file.to_owned(),
            file_buf: Vec::new(),
            one_line,
            banner_file: None,
        }
    }

    /// Sets the path of the banner file.
    pub fn set_banner(&mut self, banner: &str)
        ensures
            final(self).banner_file matches Some(b) && b@ == banner@,
            final(self).crate_name == old(self).crate_name,
            final(self).bin_file == old(self).bin_file,
            final(self).target_file == old(self).target_file,
            final(self).one_line == old(self).one_line,
            final(self).file_buf == old(self).file_buf,
    {
        self.banner_file = Some(banner.to_owned());
    }

    /// Appends `content` at nesting `level`; a comment is left out unless
    /// `keep_comment` is set.
    pub fn write_to_buf_raw(&mut self, content: String, level: u32, keep_comment: bool)
        requires
            rules_compile(),
        ensures
            final(self).buf() == old(self).buf() + (if !keep_comment && is_comment(content@) {
                Seq::<Seq<char>>::empty()
            } else {
                seq![tabs(level as nat) + content@]
            }),
            final(self).same_config(old(self)),
    {
        if !keep_comment && comment_line(content.as_str()) {
            assert(old(self).buf() + Seq::<Seq<char>>::empty() =~= old(self).buf());
            return ;
        }
        let mut line = String::new();
        let mut i: u32 = 0;
        proof {
            reveal_strlit("\t");
        }
        while i < level
            invariant
                i <= level,
                line@ == tabs(i as nat),
            decreases level - i,
        {
            proof {
                reveal_strlit("\t");
            }
            let ghost before = line@;
            line.append("\t");
            assert(line@ =~= before.push('\t'));
            i = i + 1;
        }
        line.append(content.as_str());
        let ghost before = self.buf();
        self.file_buf.push(line);
        assert(self.buf() =~= before + seq![tabs(level as nat) + content@]);
    }

    /// Appends `content` at nesting `level`, leaving a comment out.
    pub fn write_to_buf(&mut self, content: String, level: u32)
        requires
            rules_compile(),
        ensures
            final(self).buf() == old(self).buf() + emitted(content@, level as nat),
            final(self).same_config(old(self)),
    {
        self.write_to_buf_raw(content, level, false);
    }

    /// Appends `content` at nesting `level`, a comment included.
    pub fn write_to_buf_keep_comment(&mut self, content: String, level: u32)
        requires
            rules_compile(),
        ensures
            final(self).buf() == old(self).buf().push(tabs(level as nat) + content@),
            final(self).same_config(old(self)),
    {
        self.write_to_buf_raw(content, level, true);
    }

    /// Hands out the buffer's text and empties the buffer.
    pub fn flush(&mut self) -> (text: String)
        ensures
            text@ == render(old(self).buf()),
            final(self).buf().len() == 0,
            final(self).same_config(old(self)),
    {
        let mut text = String::new();
        let mut k: usize = 0;
        let ghost lines = self.buf();
        while k < self.file_buf.len()
            invariant
                k <= self.file_buf@.len(),
                lines == self.buf(),
                text@ == render(lines.take(k as int)),
            decreases self.file_buf.len() - k,
        {
            assert(lines.take(k + 1).drop_last() =~= lines.take(k as int));
            assert(lines[k as int] == self.file_buf@[k as int]@);
            text.append(self.file_buf[k].as_str());
            text.append("\n");
            k = k + 1;
        }
        assert(lines.take(k as int) =~= lines);
        self.file_buf.clear();
        assert(self.buf() =~= Seq::<Seq<char>>::empty());
        text
    }

    /// Removes every test-only module block from the buffer. Fails, leaving
    /// the buffer as it was, where such a block never closes.
    pub fn clean_inline_test_mod(&mut self) -> (r: Result<(), BundleError>)
        requires
            rules_compile(),
        ensures
            match pruned(old(self).buf()) {
                Some(kept) => r is Ok && final(self).buf() == kept,
                None => r matches Err(e) && e@ == Fault::UnclosedTestBlock
                    && final(self).buf() == old(self).buf(),
            },
            final(self).same_config(old(self)),
    {
        match prune_test_blocks(&self.file_buf) {
            Some(kept) => {
                self.file_buf = kept;
                Ok(())
            },
            None => Err(BundleError::UnclosedTestBlock),
        }
    }

    /// Requalifies every `crate::` that starts a path through the wrapper module.
    pub fn fix_use_crate(&mut self)
        ensures
            final(self).buf() == requalified(old(self).buf(), old(self).crate_name@),
            final(self).same_config(old(self)),
    {
        let pat = chars_of("crate::");
        let mut root = "crate::".to_owned();
        root.append(self.crate_name.as_str());
        root.append("::");
        let rep = chars_of(root.as_str());
        let ghost lines = self.buf();
        let ghost name = self.crate_name@;
        let mut out: Vec<String> = Vec::new();
        let mut k: usize = 0;
        while k < self.file_buf.len()
            invariant
                k <= self.file_buf@.len(),
                lines == self.buf(),
                pat@ == "crate::"@,
                rep@ == qualified_root(name),
                view_lines(out@) == requalified(lines, name).take(k as int),
            decreases self.file_buf.len() - k,
        {
            let cs = chars_of(self.file_buf[k].as_str());
            let fixed = replace_token(&cs, &pat, &rep);
            let ghost before = view_lines(out@);
            out.push(string_of(&fixed));
            assert(view_lines(out@) =~= requalified(lines, name).take(k + 1)) by {
                assert(view_lines(out@) =~= before.push(fixed@));
            }
            k = k + 1;
        }
        assert(requalified(lines, name).take(k as int) =~= requalified(lines, name));
        self.file_buf = out;
    }

    /// Collapses the buffer to one line: each line trimmed, joined by single spaces.
    pub fn minify(&mut self)
        ensures
            final(self).buf() == minified(old(self).buf()),
            final(self).same_config(old(self)),
    {
        let ghost lines = self.buf();
        let mut out: Vec<char> = Vec::new();
        let mut k: usize = 0;
        while k < self.file_buf.len()
            invariant
                k <= self.file_buf@.len(),
                lines == self.buf(),
                out@ == join_space(trim_lines(lines).take(k as int)),
            decreases self.file_buf.len() - k,
        {
            let ghost t = trim_lines(lines);
            assert(t.take(k + 1).drop_last() =~= t.take(k as int));
            assert(lines[k as int] == self.file_buf@[k as int]@);
            let cs = chars_of(self.file_buf[k].as_str());
            let trimmed = trim_chars(&cs);
            let ghost before = out@;
            if k > 0 {
                out.push(' ');
            }
            let mut m: usize = 0;
            let ghost mid = out@;
            while m < trimmed.len()
                invariant
                    m <= trimmed@.len(),
                    out@ == mid + trimmed@.take(m as int),
                decreases trimmed.len() - m,
            {
                out.push(trimmed[m]);
                m = m + 1;
                assert(out@ =~= mid + trimmed@.take(m as int));
            }
            assert(trimmed@.take(m as int) =~= trimmed@);
            if k == 0 {
                assert(t.take(1) =~= seq![t[0]]);
                assert(out@ =~= join_space(t.take(1)));
            } else {
                assert(out@ =~= join_space(t.take(k + 1)));
            }
            k = k + 1;
        }
        assert(trim_lines(lines).take(k as int) =~= trim_lines(lines));
        let joined = string_of(&out);
        self.file_buf = vec![joined];
        assert(self.buf() =~= minified(lines));
    }

    #[verifier::rlimit(40)]
    /// Inlines module `name` under directory `path` into the buffer at nesting
    /// `level`: each declared submodule becomes a block opened and closed at
    /// the declaring line's level, its own lines one level deeper.
    pub fn bundle_lib(
        &mut self,
        files: &Vec<SourceFile>,
        path: &str,
        name: &str,
        level: u32,
        fuel: usize,
    ) -> (r: Result<(), BundleError>)
        requires
            rules_compile(),
            level as int + fuel as int <= u32::MAX,
        ensures
            final(self).same_config(old(self)),
            old(self).buf().is_prefix_of(final(self).buf()),
            resolve_module(files@, path@, name@) is None ==> final(self).buf() == old(self).buf(),
            match inline_module(files@, path@, name@, level as nat, fuel as nat) {
                Ok(body) => r is Ok && final(self).buf() == old(self).buf() + body,
                Err(f) => r matches Err(e) && e@ == f,
            },
        decreases fuel,
    {
        let found = resolve(files, path, name);
        let (idx, sub) = match found {
            Err(e) => {
                return Err(e);
            },
            Ok(p) => p,
        };
        if fuel == 0 {
            return Err(BundleError::TooDeep);
        }
        let ghost lines = view_lines(files@[idx as int].lines@);
        let ghost base = self.buf();
        let ghost fu = (fuel - 1) as nat;
        assert(inline_module(files@, path@, name@, level as nat, fuel as nat) == inline_lines(
            files@,
            sub@,
            lines,
            level as nat,
            fu,
        ));
        let n = files[idx].lines.len();
        let mut k: usize = 0;
        assert(lines.take(0) =~= Seq::<Seq<char>>::empty());
        assert(base + Seq::<Seq<char>>::empty() =~= base);
        proof {
            lemma_prefix_of_append(base, Seq::empty());
        }
        while k < n
            invariant
                rules_compile(),
                level as int + fuel as int <= u32::MAX,
                fuel > 0,
                fu == fuel - 1,
                idx < files@.len(),
                n == files@[idx as int].lines@.len(),
                lines == view_lines(files@[idx as int].lines@),
                k <= n,
                self.same_config(old(self)),
                base == old(self).buf(),
                inline_module(files@, path@, name@, level as nat, fuel as nat) == inline_lines(
                    files@,
                    sub@,
                    lines,
                    level as nat,
                    fu,
                ),
                inline_lines(files@, sub@, lines.take(k as int), level as nat, fu) matches Ok(t)
                    && self.buf() == base + t,
                base.is_prefix_of(self.buf()),
                resolve_module(files@, path@, name@) is Some,
            decreases n - k,
        {
            let ghost prev = self.buf();
            let ghost front = inline_lines(files@, sub@, lines.take(k as int), level as nat, fu)->Ok_0;
            assert(lines.take(k + 1).drop_last() =~= lines.take(k as int));
            assert(lines.take(k + 1).last() == lines[k as int]);
            assert(lines[k as int] == files@[idx as int].lines@[k as int]@);
            let line = &files[idx].lines[k];
            let is_decl = declaration_line(line.as_str());
            let name_opt = if is_decl {
                declaration_name(line.as_str())
            } else {
                None
            };
            match plan_line(line.as_str(), is_decl, name_opt) {
                Ok(None) => {
                    self.write_to_buf(line.clone(), level);
                },
                Ok(Some((opener, modname))) => {
                    self.write_to_buf(opener, level);
                    let ghost mid = self.buf();
                    let sub_r = self.bundle_lib(
                        files,
                        sub.as_str(),
                        modname.as_str(),
                        level + 1,
                        fuel - 1,
                    );
                    match sub_r {
                        Err(e) => {
                            proof {
                                lemma_prefix_of_append(base, front + emitted(opener@, level as nat));
                                assert(base + (front + emitted(opener@, level as nat)) =~= mid);
                                lemma_prefix_trans(base, mid, self.buf());
                                lemma_inline_error_persists(
                                    files@,
                                    sub@,
                                    lines,
                                    k + 1,
                                    n as int,
                                    level as nat,
                                    fu,
                                );
                                assert(lines.take(n as int) =~= lines);
                            }
                            return Err(e);
                        },
                        Ok(()) => {},
                    }
                    self.write_to_buf("}".to_owned(), level);
                },
                Err(e) => {
                    proof {
                        lemma_inline_error_persists(
                            files@,
                            sub@,
                            lines,
                            k + 1,
                            n as int,
                            level as nat,
                            fu,
                        );
                        assert(lines.take(n as int) =~= lines);
                    }
                    return Err(e);
                },
            }
            proof {
                let back = inline_line(files@, sub@, lines[k as int], level as nat, fu)->Ok_0;
                assert(self.buf() =~= base + (front + back));
                lemma_prefix_of_append(base, front + back);
            }
            k = k + 1;
        }
        assert(lines.take(n as int) =~= lines);
        Ok(())
    }

    /// Runs the whole pipeline on the module tree `files`, whose library root
    /// is `src/lib`, and the entry-point lines `bin_lines`. Where a banner file
    /// is configured and its lines are given in `banner`, they come first,
    /// comments kept, in a text of their own.
    /// Returns the text to write: each flushed buffer followed by a line break.
    /// On every return the buffer is left empty; on an error no text is handed
    /// out at all.
    pub fn run(
        &mut self,
        files: &Vec<SourceFile>,
        banner: Option<&Vec<String>>,
        bin_lines: &Vec<String>,
    ) -> (r: Result<String, BundleError>)
        ensures
            final(self).buf().len() == 0,
            final(self).same_config(old(self)),
            !rules_compile() ==> (r matches Err(e) && e@ == Fault::BadPattern),
            rules_compile() ==> match library_lines(
                files@,
                old(self).crate_name@,
                main_start(old(self).buf(), banner_view(old(self).banner_file, banner)),
            ) {
                Err(f) => r matches Err(e) && e@ == f,
                Ok(library) => r matches Ok(text) && text@ == banner_text(
                    old(self).buf(),
                    banner_view(old(self).banner_file, banner),
                ) + render(final_lines(library, old(self).one_line, view_lines(bin_lines@)))
                    + "\n"@,
            },
    {
        if !check_rules() {
            self.file_buf.clear();
            return Err(BundleError::BadPattern);
        }
        let ghost pre = self.buf();
        let ghost name = self.crate_name@;
        let ghost one_line = self.one_line;
        let mut out = String::new();
        let banner = if self.banner_file.is_some() {
            banner
        } else {
            None
        };
        match banner {
            Some(b) => {
                let mut k: usize = 0;
                assert(b@.take(0) =~= Seq::<String>::empty());
                assert(pre + view_lines(b@.take(0)) =~= pre);
                while k < b.len()
                    invariant
                        rules_compile(),
                        k <= b@.len(),
                        self.buf() == pre + view_lines(b@.take(k as int)),
                        self.crate_name@ == name,
                        self.one_line == one_line,
                        self.same_config(old(self)),
                    decreases b.len() - k,
                {
                    let ghost before = self.buf();
                    self.write_to_buf_keep_comment(b[k].clone(), 0);
                    assert(tabs(0) + b@[k as int]@ =~= b@[k as int]@);
                    assert(view_lines(b@.take(k + 1)) =~= view_lines(b@.take(k as int)).push(
                        b@[k as int]@,
                    ));
                    assert(self.buf() =~= pre + view_lines(b@.take(k + 1)));
                    k = k + 1;
                }
                assert(b@.take(k as int) =~= b@);
                let text = self.flush();
                out.append(text.as_str());
                out.append("\n");
            },
            None => {},
        }
        let ghost start = self.buf();
        assert(start == main_start(pre, banner_view(old(self).banner_file, banner)));
        let mut opener = "pub mod ".to_owned();
        opener.append(self.crate_name.as_str());
        opener.append(" {");
        self.write_to_buf(opener, 0);
        let n = files.len();
        let fuel: usize = if n < 4294967295 {
            n
        } else {
            4294967294
        };
        let lib = self.bundle_lib(files, "src/", "lib", 1, fuel);
        match lib {
            Err(e) => {
                self.file_buf.clear();
                return Err(e);
            },
            Ok(()) => {},
        }
        self.write_to_buf("}".to_owned(), 0);
        match self.clean_inline_test_mod() {
            Err(e) => {
                self.file_buf.clear();
                return Err(e);
            },
            Ok(()) => {},
        }
        self.fix_use_crate();
        let ghost library = self.buf();
        if self.one_line {
            self.minify();
        }
        let ghost head = self.buf();
        let mut k: usize = 0;
        assert(bin_lines@.take(0) =~= Seq::<String>::empty());
        assert(head + Seq::<Seq<char>>::empty() =~= head);
        while k < bin_lines.len()
            invariant
                rules_compile(),
                k <= bin_lines@.len(),
                self.buf() == head + emitted_all(view_lines(bin_lines@.take(k as int)), 0),
                self.same_config(old(self)),
            decreases bin_lines.len() - k,
        {
            let ghost before = self.buf();
            self.write_to_buf(bin_lines[k].clone(), 0);
            let ghost v = view_lines(bin_lines@.take(k + 1));
            assert(v.drop_last() =~= view_lines(bin_lines@.take(k as int)));
            assert(v.last() == bin_lines@[k as int]@);
            assert(self.buf() =~= head + emitted_all(v, 0));
            k = k + 1;
        }
        assert(bin_lines@.take(k as int) =~= bin_lines@);
        let text = self.flush();
        out.append(text.as_str());
        out.append("\n");
        Ok(out)
    }
}

} // verus!
