use vstd::prelude::*;

use crate::ast::{global_scope, global_step, parse_global, pass_of, pending_text, empty_program, ImportKind, ImportView, Program, ProgramView, SourceFault};
use crate::lst::{chars_equal, tokenize, SyntaxRoot};
use crate::utils::{chars_of, string_of_chars};

verus! {

/// The directory part of `path`: all before its last `/` (empty when it has none).
pub open spec fn dir_of(path: Seq<char>) -> Seq<char>
    decreases path.len(),
{
    if path.len() == 0 {
        Seq::empty()
    } else if path.last() == '/' {
        path.drop_last()
    } else {
        dir_of(path.drop_last())
    }
}

/// `rel` under the directory `dir`.
pub open spec fn joined(dir: Seq<char>, rel: Seq<char>) -> Seq<char> {
    if dir.len() == 0 {
        rel
    } else {
        dir + "/"@ + rel
    }
}

/// The file that an import names, as written: beside the importing file for `file`, under the
/// standard library's `std` or `core` directory for `include` and `!!core`.
pub open spec fn raw_import_path(i: ImportView, importer: Seq<char>, stdlib_root: Seq<char>) -> Seq<char> {
    match i.kind {
        ImportKind::File => joined(dir_of(importer), i.path + ".beach"@),
        ImportKind::Std => joined(stdlib_root, "std/"@ + i.path + ".beach"@),
        ImportKind::Core => joined(stdlib_root, "core/"@ + i.path + ".beach"@),
    }
}

/// The file that an import names, in canonical form, so that two spellings of one file are one.
pub open spec fn import_path(i: ImportView, importer: Seq<char>, stdlib_root: Seq<char>) -> Seq<char> {
    normalized(raw_import_path(i, importer, stdlib_root))
}

/// The segments kept after adding the segment `seg`: an empty or `.` segment adds nothing, and
/// `..` removes the segment before it (at the root of an absolute path it is dropped).
pub open spec fn push_segment(stack: Seq<Seq<char>>, seg: Seq<char>, absolute: bool) -> Seq<Seq<char>> {
    if seg.len() == 0 || seg == "."@ {
        stack
    } else if seg == ".."@ {
        if stack.len() > 0 && stack.last() != ".."@ {
            stack.drop_last()
        } else if absolute {
            stack
        } else {
            stack.push(seg)
        }
    } else {
        stack.push(seg)
    }
}

/// The kept segments and the segment being read after the first `n` characters of `p`.
pub open spec fn scan_path(p: Seq<char>, n: nat, absolute: bool) -> (Seq<Seq<char>>, Seq<char>)
    decreases n,
{
    if n == 0 || n > p.len() {
        (Seq::empty(), Seq::empty())
    } else {
        let (stack, cur) = scan_path(p, (n - 1) as nat, absolute);
        if p[n - 1] == '/' {
            (push_segment(stack, cur, absolute), Seq::empty())
        } else {
            (stack, cur.push(p[n - 1]))
        }
    }
}

/// Segments joined by `/`.
pub open spec fn join_segments(segs: Seq<Seq<char>>) -> Seq<char>
    decreases segs.len(),
{
    if segs.len() == 0 {
        Seq::empty()
    } else if segs.len() == 1 {
        segs[0]
    } else {
        join_segments(segs.drop_last()) + "/"@ + segs.last()
    }
}

/// `p` without empty or `.` segments and with each `name/..` pair removed.
pub open spec fn normalized(p: Seq<char>) -> Seq<char> {
    let absolute = p.len() > 0 && p[0] == '/';
    let (stack, cur) = scan_path(p, p.len(), absolute);
    (if absolute {
        "/"@
    } else {
        Seq::empty()
    }) + join_segments(push_segment(stack, cur, absolute))
}

/// The views of a list of segments.
pub open spec fn segments_view(v: Seq<Vec<char>>) -> Seq<Seq<char>> {
    v.map_values(|s: Vec<char>| s@)
}

/// Adds the segment `seg` to `stack` as [push_segment] says.
fn push_segment_exec(stack: &mut Vec<Vec<char>>, seg: Vec<char>, absolute: bool)
    ensures
        segments_view(final(stack)@) == push_segment(segments_view(old(stack)@), seg@, absolute),
{
    let ghost before = segments_view(stack@);
    if seg.len() == 0 || chars_equal(&seg, ".") {
        return;
    }
    if chars_equal(&seg, "..") {
        let n = stack.len();
        if n > 0 && !chars_equal(&stack[n - 1], "..") {
            stack.pop();
            assert(segments_view(stack@) =~= before.drop_last());
        } else if !absolute {
            stack.push(seg);
            assert(segments_view(stack@) =~= before.push(".."@));
        }
    } else {
        let ghost sv = seg@;
        stack.push(seg);
        assert(segments_view(stack@) =~= before.push(sv));
    }
}

/// Writes `p` in canonical form, as [normalized] says.
pub fn normalize_path(p: &String) -> (r: String)
    ensures
        r@ == normalized(p@),
{
    let chars = chars_of(p.as_str());
    let absolute = chars.len() > 0 && chars[0] == '/';
    let mut stack: Vec<Vec<char>> = Vec::new();
    let mut cur: Vec<char> = Vec::new();
    let mut i: usize = 0;
    assert(segments_view(stack@) =~= Seq::<Seq<char>>::empty());
    while i < chars.len()
        invariant
            chars@ == p@,
            absolute == (p@.len() > 0 && p@[0] == '/'),
            i <= chars.len(),
            (segments_view(stack@), cur@) == scan_path(p@, i as nat, absolute),
        decreases chars.len() - i,
    {
        if chars[i] == '/' {
            let seg = cur;
            cur = Vec::new();
            push_segment_exec(&mut stack, seg, absolute);
            assert(cur@ =~= Seq::<char>::empty());
        } else {
            cur.push(chars[i]);
        }
        i = i + 1;
    }
    push_segment_exec(&mut stack, cur, absolute);
    let ghost segs = segments_view(stack@);
    let mut out = if absolute {
        String::from_str("/")
    } else {
        String::new()
    };
    let ghost start = out@;
    let mut k: usize = 0;
    assert(segs.take(0) =~= Seq::<Seq<char>>::empty());
    while k < stack.len()
        invariant
            segs == segments_view(stack@),
            k <= stack.len(),
            out@ == start + join_segments(segs.take(k as int)),
        decreases stack.len() - k,
    {
        proof {
            assert(segs.take(k + 1).drop_last() =~= segs.take(k as int));
            assert(segs.take(k + 1).last() == stack@[k as int]@);
            if k == 0 {
                assert(segs.take(1)[0] == stack@[0]@);
            }
        }
        if k > 0 {
            out.append("/");
        }
        let seg = string_of_chars(&stack[k], 0, stack[k].len());
        assert(seg@ =~= stack@[k as int]@);
        out.append(seg.as_str());
        proof {
            if k == 0 {
                assert(out@ =~= start + join_segments(segs.take(1)));
            } else {
                assert(out@ =~= start + join_segments(segs.take(k + 1)));
            }
        }
        k = k + 1;
    }
    proof {
        assert(segs.take(k as int) =~= segs);
    }
    out
}

/// `paths` with the files of `imports` appended, each only if it is not there yet.
pub open spec fn add_paths(
    paths: Seq<Seq<char>>,
    imports: Seq<ImportView>,
    importer: Seq<char>,
    stdlib_root: Seq<char>,
) -> Seq<Seq<char>>
    decreases imports.len(),
{
    if imports.len() == 0 {
        paths
    } else {
        let before = add_paths(paths, imports.drop_last(), importer, stdlib_root);
        let p = import_path(imports.last(), importer, stdlib_root);
        if before.contains(p) {
            before
        } else {
            before.push(p)
        }
    }
}

/// The kinds of the files that [add_paths] adds, after `kinds`.
pub open spec fn add_kinds(
    paths: Seq<Seq<char>>,
    kinds: Seq<ImportKind>,
    imports: Seq<ImportView>,
    importer: Seq<char>,
    stdlib_root: Seq<char>,
) -> Seq<ImportKind>
    decreases imports.len(),
{
    if imports.len() == 0 {
        kinds
    } else {
        let before = add_kinds(paths, kinds, imports.drop_last(), importer, stdlib_root);
        let p = import_path(imports.last(), importer, stdlib_root);
        if add_paths(paths, imports.drop_last(), importer, stdlib_root).contains(p) {
            before
        } else {
            before.push(imports.last().kind)
        }
    }
}

/// The file to try when `path`, asked for by an `include`, is missing: the file named after
/// the directory that holds it (`a/b.beach` gives `a.beach`).
pub open spec fn fallback_of(path: Seq<char>) -> Seq<char> {
    dir_of(path) + ".beach"@
}

/// Closes the imports of a program: it asks for one file at a time, never the same file twice,
/// and parses each file it is given into the program.
pub struct Resolver {
    program: Program,
    /// Every file asked for so far, the root first; the first `fetched` have been parsed.
    paths: Vec<String>,
    /// The kind of import that first asked for each file (`File` for the root).
    kinds: Vec<ImportKind>,
    fetched: usize,
    stdlib_root: String,
}

impl Resolver {
    /// The files asked for so far, in order, the root first.
    pub closed spec fn paths(&self) -> Seq<Seq<char>> {
        self.paths@.map_values(|s: String| s@)
    }

    /// The kind of import that first asked for each file.
    pub closed spec fn kinds(&self) -> Seq<ImportKind> {
        self.kinds@
    }

    /// How many of them have been parsed.
    pub closed spec fn fetched(&self) -> nat {
        self.fetched as nat
    }

    /// The program so far.
    pub closed spec fn program(&self) -> ProgramView {
        self.program@
    }

    pub closed spec fn stdlib_root(&self) -> Seq<char> {
        self.stdlib_root@
    }

    /// No file is asked for twice, and the parsed ones come first.
    pub open spec fn wf(&self) -> bool {
        &&& self.paths().no_duplicates()
        &&& 1 <= self.fetched() <= self.paths().len()
        &&& self.waiting() == 0
        &&& self.kinds().len() == self.paths().len()
    }

    /// How many texts wait in the program to be parsed.
    pub closed spec fn waiting(&self) -> nat {
        self.program.pending_file_additions.len() as nat
    }

    /// Adds the files of the imports from the `from`-th on, met in the file `importer`.
    fn add_imports(&mut self, from: usize, importer: &String)
        requires
            old(self).paths().no_duplicates(),
            old(self).kinds().len() == old(self).paths().len(),
            from <= old(self).program.imports.len(),
        ensures
            final(self).kinds().len() == final(self).paths().len(),
            final(self).kinds() == add_kinds(
                old(self).paths(),
                old(self).kinds(),
                old(self).program().imports.skip(from as int),
                importer@,
                old(self).stdlib_root(),
            ),
            final(self).program == old(self).program,
            final(self).fetched == old(self).fetched,
            final(self).stdlib_root == old(self).stdlib_root,
            final(self).paths().no_duplicates(),
            final(self).paths() == add_paths(
                old(self).paths(),
                old(self).program().imports.skip(from as int),
                importer@,
                old(self).stdlib_root(),
            ),
    {
        let ghost imports = self.program().imports.skip(from as int);
        let ghost start = self.paths();
        let ghost start_kinds = self.kinds();
        let mut k = from;
        proof {
            assert(imports.take(0) =~= Seq::<ImportView>::empty());
        }
        while k < self.program.imports.len()
            invariant
                self.program == old(self).program,
                self.fetched == old(self).fetched,
                self.stdlib_root == old(self).stdlib_root,
                from <= k <= self.program.imports.len(),
                imports == self.program().imports.skip(from as int),
                start == old(self).paths(),
                start_kinds == old(self).kinds(),
                self.kinds().len() == self.paths().len(),
                self.kinds() == add_kinds(start, start_kinds, imports.take(k - from), importer@, self.stdlib_root()),
                self.paths().no_duplicates(),
                self.paths() == add_paths(start, imports.take(k - from), importer@, self.stdlib_root()),
            decreases self.program.imports.len() - k,
        {
            let ghost before = self.paths();
            proof {
                assert(imports.take(k - from + 1).drop_last() =~= imports.take(k - from));
                assert(imports.take(k - from + 1).last() == self.program().imports[k as int]);
            }
            let p = resolved_path(&self.program.imports[k].kind, &self.program.imports[k].path, importer, &self.stdlib_root);
            let mut found = false;
            let mut i: usize = 0;
            while i < self.paths.len()
                invariant
                    i <= self.paths.len(),
                    before == self.paths(),
                    found <==> exists|q: int| 0 <= q < i && #[trigger] before[q] == p@,
                decreases self.paths.len() - i,
            {
                if self.paths[i].eq(&p) {
                    found = true;
                }
                assert(before[i as int] == self.paths@[i as int]@);
                i = i + 1;
            }
            if !found {
                let ghost pv = p@;
                let kind = self.program.imports[k].kind;
                self.kinds.push(kind);
                self.paths.push(p);
                proof {
                    assert(self.paths() =~= before.push(pv));
                    assert forall|a: int, b: int| 0 <= a < b < self.paths().len() implies self.paths()[a]
                        != self.paths()[b] by {
                        if b == before.len() {
                            assert(before[a] != pv);
                        }
                    }
                }
            } else {
                proof {
                    let q = choose|q: int| 0 <= q < before.len() && before[q] == p@;
                    assert(before.contains(p@));
                }
            }
            k = k + 1;
        }
        proof {
            assert(imports.take(k - from) =~= imports);
        }
    }

    /// Parses the root file, with the prelude's text before its own, and asks for the files it
    /// imports.
    pub fn new(stdlib_root: String, root_path: String, prelude: String, root_text: String) -> (r: Result<Resolver, SourceFault>)
        ensures
            match pass_of(prelude@ + root_text@, empty_program()) {
                Ok(p) => r is Ok && r->Ok_0.wf() && r->Ok_0.program() == p && r->Ok_0.fetched() == 1
                    && r->Ok_0.stdlib_root() == stdlib_root@ && r->Ok_0.paths() == add_paths(
                    seq![normalized(root_path@)],
                    p.imports,
                    normalized(root_path@),
                    stdlib_root@,
                ) && r->Ok_0.kinds() == add_kinds(
                    seq![normalized(root_path@)],
                    seq![ImportKind::File],
                    p.imports,
                    normalized(root_path@),
                    stdlib_root@,
                ),
                Err(f) => r == Err::<Resolver, SourceFault>(f),
            },
    {
        let mut text = prelude;
        text.append(root_text.as_str());
        let mut program = Program {
            definitions: Vec::new(),
            global_tasks: Vec::new(),
            main_tasks: Vec::new(),
            pending_file_additions: Vec::new(),
            imports: Vec::new(),
        };
        proof {
            assert(program@.definitions =~= empty_program().definitions);
            assert(program@.global_tasks =~= empty_program().global_tasks);
            assert(program@.main_tasks =~= empty_program().main_tasks);
            assert(program@.imports =~= empty_program().imports);
        }
        let root = match SyntaxRoot::from_string(text) {
            Ok(root) => root,
            Err(f) => {
                return Err(SourceFault::Lex(f));
            },
        };
        if root.symbols.len() >= usize::MAX / 2 {
            return Err(SourceFault::TooLong);
        }
        match global_scope(&mut program, &root.symbols) {
            Ok(()) => {},
            Err(f) => {
                return Err(SourceFault::Parse(f));
            },
        }
        let first = normalize_path(&root_path);
        let root_file = first.clone();
        let mut paths: Vec<String> = Vec::new();
        paths.push(first);
        let mut kinds: Vec<ImportKind> = Vec::new();
        kinds.push(ImportKind::File);
        let mut r = Resolver { program, paths, kinds, fetched: 1, stdlib_root };
        proof {
            assert(r.paths() =~= seq![normalized(root_path@)]);
            assert(r.kinds() =~= seq![ImportKind::File]);
            assert(r.program().imports.skip(0) =~= r.program().imports);
        }
        r.add_imports(0, &root_file);
        Ok(r)
    }

    /// The next file to read, if any is left.
    pub fn next_fetch(&self) -> (r: Option<String>)
        requires
            self.wf(),
        ensures
            self.fetched() < self.paths().len() ==> r is Some && r->0@ == self.paths()[self.fetched() as int],
            self.fetched() >= self.paths().len() ==> r is None,
    {
        if self.fetched < self.paths.len() {
            Some(self.paths[self.fetched].clone())
        } else {
            None
        }
    }

    /// Queues `text`, the contents of the file that [Resolver::next_fetch] named, as a pending
    /// addition of the program and merges it (after a line break), then asks for the files it
    /// imports that were not asked for before.
    pub fn supply(&mut self, text: String) -> (r: Result<(), SourceFault>)
        requires
            old(self).wf(),
            old(self).fetched() < old(self).paths().len(),
        ensures
            match pass_of(pending_text(seq![text@]), old(self).program()) {
                Ok(p) => r is Ok && final(self).wf() && final(self).program() == p
                    && final(self).fetched() == old(self).fetched() + 1 && final(self).stdlib_root()
                    == old(self).stdlib_root() && final(self).paths() == add_paths(
                    old(self).paths(),
                    p.imports.skip(old(self).program().imports.len() as int),
                    old(self).paths()[old(self).fetched() as int],
                    old(self).stdlib_root(),
                ) && final(self).kinds() == add_kinds(
                    old(self).paths(),
                    old(self).kinds(),
                    p.imports.skip(old(self).program().imports.len() as int),
                    old(self).paths()[old(self).fetched() as int],
                    old(self).stdlib_root(),
                ),
                Err(f) => r == Err::<(), SourceFault>(f),
            },
    {
        let done = self.fetched;
        assert(done < self.paths.len());
        let importer = self.paths[done].clone();
        let known = self.program.imports.len();
        self.program.pending_file_additions.push(text);
        proof {
            assert(self.program.pending_file_additions@.map_values(|t: String| t@) =~= seq![text@]);
        }
        match self.program.merge_pending() {
            Ok(()) => {},
            Err(f) => {
                return Err(f);
            },
        }
        self.fetched = done + 1;
        proof {
            let t = tokenize(pending_text(seq![text@]), 0)->Ok_0;
            lemma_parse_keeps_imports(t, 0, old(self).program());
        }
        self.add_imports(known, &importer);
        proof {
            lemma_add_paths_grows(old(self).paths(), self.program().imports.skip(known as int), importer@, self.stdlib_root());
        }
        Ok(())
    }

    /// Where to look when the next file is missing: for a file that an `include` asked for,
    /// the file named after the directory that holds it; nowhere for other imports.
    pub fn next_fallback(&self) -> (r: Option<String>)
        requires
            self.wf(),
        ensures
            self.fetched() < self.paths().len() && self.kinds()[self.fetched() as int]
                == ImportKind::Std ==> r is Some && r->0@ == fallback_of(
                self.paths()[self.fetched() as int],
            ),
            !(self.fetched() < self.paths().len() && self.kinds()[self.fetched() as int]
                == ImportKind::Std) ==> r is None,
    {
        if self.fetched < self.paths.len() && self.kinds[self.fetched] == ImportKind::Std {
            let mut out = directory_of(&self.paths[self.fetched]);
            out.append(".beach");
            Some(out)
        } else {
            None
        }
    }

    /// The program, once every file has been read.
    pub fn finish(self) -> (r: Program)
        ensures
            r@ == self.program(),
    {
        self.program
    }
}

/// The file that an import names.
fn resolved_path(kind: &ImportKind, path: &String, importer: &String, stdlib_root: &String) -> (r: String)
    ensures
        r@ == import_path(ImportView { kind: *kind, path: path@ }, importer@, stdlib_root@),
{
    let raw = written_path(kind, path, importer, stdlib_root);
    normalize_path(&raw)
}

/// The file that an import names, as written.
fn written_path(kind: &ImportKind, path: &String, importer: &String, stdlib_root: &String) -> (r: String)
    ensures
        r@ == raw_import_path(ImportView { kind: *kind, path: path@ }, importer@, stdlib_root@),
{
    let (base, prefix) = match kind {
        ImportKind::File => (directory_of(importer), String::new()),
        ImportKind::Std => (stdlib_root.clone(), String::from_str("std/")),
        ImportKind::Core => (stdlib_root.clone(), String::from_str("core/")),
    };
    let mut rel = prefix;
    rel.append(path.as_str());
    rel.append(".beach");
    proof {
        if *kind == ImportKind::File {
            assert(rel@ =~= path@ + ".beach"@);
        }
    }
    if base.as_str().is_empty() {
        rel
    } else {
        let mut out = base;
        out.append("/");
        out.append(rel.as_str());
        out
    }
}

/// All of `path` before its last `/`.
fn directory_of(path: &String) -> (r: String)
    ensures
        r@ == dir_of(path@),
{
    let chars = crate::utils::chars_of(path.as_str());
    let mut end = chars.len();
    assert(chars@.take(end as int) =~= chars@);
    while end > 0 && chars[end - 1] != '/'
        invariant
            chars@ == path@,
            end <= chars.len(),
            dir_of(path@) == dir_of(chars@.take(end as int)),
        decreases end,
    {
        proof {
            assert(chars@.take(end as int).drop_last() =~= chars@.take(end - 1));
        }
        end = end - 1;
    }
    if end == 0 {
        assert(chars@.take(0).len() == 0);
        String::new()
    } else {
        proof {
            assert(chars@.take(end as int).drop_last() =~= chars@.take(end - 1));
        }
        crate::utils::string_of_chars(&chars, 0, end - 1)
    }
}

proof fn lemma_step_keeps_imports(t: Seq<crate::lst::SymbolView>, i: int, p: ProgramView)
    ensures
        global_step(t, i, p) matches Ok((q, _)) ==> q.imports.len() >= p.imports.len()
            && q.imports.take(p.imports.len() as int) == p.imports,
{
    assert(p.imports.take(p.imports.len() as int) =~= p.imports);
    assert forall|x: ImportView| #[trigger] p.imports.push(x).take(p.imports.len() as int) == p.imports by {
        assert(p.imports.push(x).take(p.imports.len() as int) =~= p.imports);
    }
}

/// A pass over more text keeps the imports met before it, and adds its own after them.
proof fn lemma_parse_keeps_imports(t: Seq<crate::lst::SymbolView>, i: int, p: ProgramView)
    ensures
        parse_global(t, i, p) matches Ok(q) ==> q.imports.len() >= p.imports.len()
            && q.imports.take(p.imports.len() as int) == p.imports,
    decreases t.len() - i,
{
    if 0 <= i < t.len() {
        lemma_step_keeps_imports(t, i, p);
        match global_step(t, i, p) {
            Ok((q, j)) => {
                if i < j <= t.len() {
                    lemma_parse_keeps_imports(t, j, q);
                    match parse_global(t, j, q) {
                        Ok(r) => {
                            assert(r.imports.take(p.imports.len() as int) =~= r.imports.take(
                                q.imports.len() as int,
                            ).take(p.imports.len() as int));
                        },
                        Err(_) => {},
                    }
                }
            },
            Err(_) => {},
        }
    } else {
        assert(p.imports.take(p.imports.len() as int) =~= p.imports);
    }
}

/// Adding paths keeps the ones there, and adds none that was there before.
pub proof fn lemma_add_paths_grows(paths: Seq<Seq<char>>, imports: Seq<ImportView>, importer: Seq<char>, root: Seq<char>)
    requires
        paths.no_duplicates(),
    ensures
        add_paths(paths, imports, importer, root).no_duplicates(),
        add_paths(paths, imports, importer, root).len() >= paths.len(),
        add_paths(paths, imports, importer, root).take(paths.len() as int) == paths,
    decreases imports.len(),
{
    if imports.len() > 0 {
        lemma_add_paths_grows(paths, imports.drop_last(), importer, root);
        let before = add_paths(paths, imports.drop_last(), importer, root);
        let p = import_path(imports.last(), importer, root);
        if !before.contains(p) {
            assert(before.push(p).take(paths.len() as int) =~= before.take(paths.len() as int));
        }
    }
}

/// Imports of files that were all asked for before add nothing.
pub proof fn lemma_known_imports_add_nothing(
    paths: Seq<Seq<char>>,
    imports: Seq<ImportView>,
    importer: Seq<char>,
    root: Seq<char>,
)
    requires
        forall|i: int| 0 <= i < imports.len() ==> paths.contains(
            #[trigger] import_path(imports[i], importer, root),
        ),
    ensures
        add_paths(paths, imports, importer, root) == paths,
    decreases imports.len(),
{
    if imports.len() > 0 {
        assert forall|i: int| 0 <= i < imports.drop_last().len() implies paths.contains(
            #[trigger] import_path(imports.drop_last()[i], importer, root),
        ) by {
            assert(imports.drop_last()[i] == imports[i]);
        }
        lemma_known_imports_add_nothing(paths, imports.drop_last(), importer, root);
        assert(paths.contains(import_path(imports[imports.len() - 1], importer, root)));
    }
}

/// Each file is read at most once. Files are compared in canonical form ([import_path]
/// normalises `.` and `..` segments), so two spellings of one file are one file. Supplying a
/// file keeps the files asked for before, in order, and adds only files that were not asked
/// for; the files asked for stay all different.
/// A file whose imports were all asked for before adds none, so an import cycle ends once each
/// of its files has been read.
pub proof fn lemma_each_file_once(
    paths: Seq<Seq<char>>,
    imports: Seq<ImportView>,
    importer: Seq<char>,
    root: Seq<char>,
)
    requires
        paths.no_duplicates(),
    ensures
        add_paths(paths, imports, importer, root).no_duplicates(),
        add_paths(paths, imports, importer, root).take(paths.len() as int) == paths,
        forall|k: int|
            paths.len() <= k < add_paths(paths, imports, importer, root).len() ==> !paths.contains(
                #[trigger] add_paths(paths, imports, importer, root)[k],
            ),
        (forall|i: int| 0 <= i < imports.len() ==> paths.contains(
            #[trigger] import_path(imports[i], importer, root),
        )) ==> add_paths(paths, imports, importer, root) == paths,
{
    lemma_add_paths_grows(paths, imports, importer, root);
    let after = add_paths(paths, imports, importer, root);
    assert forall|k: int| paths.len() <= k < after.len() implies !paths.contains(#[trigger] after[k]) by {
        if paths.contains(after[k]) {
            let j = choose|j: int| 0 <= j < paths.len() && paths[j] == after[k];
            assert(after.take(paths.len() as int)[j] == after[j]);
            assert(after[j] == after[k]);
        }
    }
    if forall|i: int| 0 <= i < imports.len() ==> paths.contains(
        #[trigger] import_path(imports[i], importer, root),
    ) {
        lemma_known_imports_add_nothing(paths, imports, importer, root);
    }
}

} // verus!
