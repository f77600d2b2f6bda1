//! The shader source preprocessor: a small `#ifdef` / `#ifndef` / `#endif` /
//! `#define` line filter run over WGSL-like text before validation.
//!
//! Lines are handled as byte strings. A directive line is consumed and acted
//! on; an ordinary line is kept or dropped according to the innermost
//! untaken conditional. Directives are honored even inside a dropped block,
//! matching the filter's single-pass behavior: a `#define` in a dropped block
//! still defines its name, and an inner `#ifdef` can move the depth at which
//! the dropped block ends. `#import` is not supported and fails the run.
use vstd::prelude::*;
use vstd::string::StringSliceAdditionalSpecFns;

verus! {

/// ASCII space, tab or carriage return: what `trim` strips.
pub open spec fn is_blank(b: u8) -> bool {
    b == 32 || b == 9 || b == 13
}

/// The longest suffix without leading blanks.
pub open spec fn trim_start_spec(s: Seq<u8>) -> Seq<u8>
    decreases s.len(),
{
    if s.len() > 0 && is_blank(s[0]) {
        trim_start_spec(s.drop_first())
    } else {
        s
    }
}

/// The longest prefix without trailing blanks.
pub open spec fn trim_end_spec(s: Seq<u8>) -> Seq<u8>
    decreases s.len(),
{
    if s.len() > 0 && is_blank(s.last()) {
        trim_end_spec(s.drop_last())
    } else {
        s
    }
}

/// Blanks stripped from both ends.
pub open spec fn trim_spec(s: Seq<u8>) -> Seq<u8> {
    trim_end_spec(trim_start_spec(s))
}

/// The rest of `s` after the prefix `p`, when `s` starts with `p`.
pub open spec fn strip_prefix_spec(s: Seq<u8>, p: Seq<u8>) -> Option<Seq<u8>> {
    if p.len() <= s.len() && s.subrange(0, p.len() as int) == p {
        Some(s.subrange(p.len() as int, s.len() as int))
    } else {
        None
    }
}

/// A preprocessor directive, with its argument trimmed.
pub enum Directive {
    IfDef(Vec<u8>),
    IfNDef(Vec<u8>),
    EndIf,
    Define(Vec<u8>),
    Import(Vec<u8>),
}

/// The spec-level shape of a parsed directive.
pub enum DirectiveSpec {
    IfDef(Seq<u8>),
    IfNDef(Seq<u8>),
    EndIf,
    Define(Seq<u8>),
    Import(Seq<u8>),
}

/// How a line parses: the first matching `#` prefix of its trimmed form
/// decides, as the runtime parser tries them in this order.
pub open spec fn parse_directive_spec(line: Seq<u8>) -> Option<DirectiveSpec> {
    let t = trim_spec(line);
    match strip_prefix_spec(t, ifdef_prefix()) {
        Some(rest) => Some(DirectiveSpec::IfDef(trim_spec(rest))),
        None => match strip_prefix_spec(t, ifndef_prefix()) {
            Some(rest) => Some(DirectiveSpec::IfNDef(trim_spec(rest))),
            None => match strip_prefix_spec(t, endif_prefix()) {
                Some(_) => Some(DirectiveSpec::EndIf),
                None => match strip_prefix_spec(t, define_prefix()) {
                    Some(rest) => Some(DirectiveSpec::Define(trim_spec(rest))),
                    None => match strip_prefix_spec(t, import_prefix()) {
                        Some(rest) => Some(DirectiveSpec::Import(trim_spec(rest))),
                        None => None,
                    },
                },
            },
        },
    }
}

/// The bytes of `"#ifdef "`.
pub open spec fn ifdef_prefix() -> Seq<u8> {
    seq![35u8, 105, 102, 100, 101, 102, 32]
}

/// The bytes of `"#ifndef "`.
pub open spec fn ifndef_prefix() -> Seq<u8> {
    seq![35u8, 105, 102, 110, 100, 101, 102, 32]
}

/// The bytes of `"#endif"`.
pub open spec fn endif_prefix() -> Seq<u8> {
    seq![35u8, 101, 110, 100, 105, 102]
}

/// The bytes of `"#define "`.
pub open spec fn define_prefix() -> Seq<u8> {
    seq![35u8, 100, 101, 102, 105, 110, 101, 32]
}

/// The bytes of `"#import "`.
pub open spec fn import_prefix() -> Seq<u8> {
    seq![35u8, 105, 109, 112, 111, 114, 116, 32]
}

/// Whether a name is on the define list.
pub open spec fn defines_contain(defines: Seq<Seq<u8>>, name: Seq<u8>) -> bool {
    exists|i: int| 0 <= i < defines.len() && defines[i] == name
}

/// The whole filter, one line at a time: what the kept lines and the final
/// define list are, threading the conditional-nesting state through.
/// `depth` counts open conditionals, and while a block is being dropped
/// `ignoring` is set and `ignore_depth` remembers at which depth the drop
/// started. `None` means the run fails (an `#import` was hit).
pub open spec fn preprocess_spec(
    lines: Seq<Seq<u8>>,
    defines: Seq<Seq<u8>>,
    depth: int,
    ignoring: bool,
    ignore_depth: int,
) -> Option<(Seq<Seq<u8>>, Seq<Seq<u8>>)>
    decreases lines.len(),
{
    if lines.len() == 0 {
        Some((Seq::empty(), defines))
    } else {
        let line = lines[0];
        let rest = lines.drop_first();
        match parse_directive_spec(line) {
            Some(DirectiveSpec::IfDef(name)) => {
                if !defines_contain(defines, name) {
                    preprocess_spec(rest, defines, depth + 1, true, depth + 1)
                } else {
                    preprocess_spec(rest, defines, depth + 1, ignoring, ignore_depth)
                }
            },
            Some(DirectiveSpec::IfNDef(name)) => {
                if defines_contain(defines, name) {
                    preprocess_spec(rest, defines, depth + 1, true, depth + 1)
                } else {
                    preprocess_spec(rest, defines, depth + 1, ignoring, ignore_depth)
                }
            },
            Some(DirectiveSpec::EndIf) => {
                if ignoring && ignore_depth == depth {
                    preprocess_spec(rest, defines, depth - 1, false, 0)
                } else {
                    preprocess_spec(rest, defines, depth - 1, ignoring, ignore_depth)
                }
            },
            Some(DirectiveSpec::Define(name)) => {
                preprocess_spec(rest, defines.push(name), depth, ignoring, ignore_depth)
            },
            Some(DirectiveSpec::Import(_)) => None,
            None => {
                if ignoring {
                    preprocess_spec(rest, defines, depth, ignoring, ignore_depth)
                } else {
                    match preprocess_spec(rest, defines, depth, ignoring, ignore_depth) {
                        Some(r) => Some((seq![line] + r.0, r.1)),
                        None => None,
                    }
                }
            },
        }
    }
}

/// The views of a list of byte lines.
pub open spec fn line_views(v: Seq<Vec<u8>>) -> Seq<Seq<u8>> {
    Seq::new(v.len(), |i: int| v[i]@)
}

fn trim(s: &[u8]) -> (r: Vec<u8>)
    ensures
        r@ == trim_spec(s@),
{
    let mut start: usize = 0;
    let n = s.len();
    proof {
        assert(s@.subrange(0, n as int) =~= s@);
    }
    while start < n && (s[start] == 32 || s[start] == 9 || s[start] == 13)
        invariant
            n == s@.len(),
            0 <= start <= n,
            trim_start_spec(s@) == trim_start_spec(s@.subrange(start as int, n as int)),
        decreases n - start,
    {
        proof {
            assert(s@.subrange(start as int, n as int).drop_first() =~= s@.subrange(
                start + 1,
                n as int,
            ));
        }
        start += 1;
    }
    proof {
        assert(trim_start_spec(s@.subrange(start as int, n as int)) == s@.subrange(
            start as int,
            n as int,
        ));
    }
    let mut end: usize = n;
    while end > start && (s[end - 1] == 32 || s[end - 1] == 9 || s[end - 1] == 13)
        invariant
            n == s@.len(),
            0 <= start <= end <= n,
            trim_start_spec(s@) == s@.subrange(start as int, n as int),
            trim_end_spec(s@.subrange(start as int, n as int)) == trim_end_spec(
                s@.subrange(start as int, end as int),
            ),
        decreases end,
    {
        proof {
            assert(s@.subrange(start as int, end as int).drop_last() =~= s@.subrange(
                start as int,
                end - 1,
            ));
            assert(s@.subrange(start as int, end as int).last() == s@[end - 1]);
        }
        end -= 1;
    }
    proof {
        if end > start {
            assert(s@.subrange(start as int, end as int).last() == s@[end - 1]);
        }
        assert(trim_end_spec(s@.subrange(start as int, end as int)) == s@.subrange(
            start as int,
            end as int,
        ));
    }
    let mut r: Vec<u8> = Vec::new();
    let mut i = start;
    while i < end
        invariant
            start <= i <= end <= n,
            n == s@.len(),
            r@ =~= s@.subrange(start as int, i as int),
        decreases end - i,
    {
        r.push(s[i]);
        proof {
            assert(r@ =~= s@.subrange(start as int, i + 1));
        }
        i += 1;
    }
    proof {
        assert(r@ =~= s@.subrange(start as int, end as int));
    }
    r
}

fn strip_prefix(s: &[u8], p: &[u8]) -> (r: Option<Vec<u8>>)
    ensures
        match r {
            Some(rest) => strip_prefix_spec(s@, p@) == Some(rest@),
            None => strip_prefix_spec(s@, p@) is None,
        },
{
    let pn = p.len();
    let n = s.len();
    if pn > n {
        return None;
    }
    for i in 0..pn
        invariant
            pn <= n,
            n == s@.len(),
            pn == p@.len(),
            forall|j: int| 0 <= j < i ==> s@[j] == p@[j],
    {
        if s[i] != p[i] {
            proof {
                assert(s@.subrange(0, pn as int)[i as int] != p@[i as int]);
            }
            return None;
        }
    }
    proof {
        assert(s@.subrange(0, pn as int) =~= p@);
    }
    let mut rest: Vec<u8> = Vec::new();
    for i in pn..n
        invariant
            pn <= n,
            n == s@.len(),
            rest@ =~= s@.subrange(pn as int, i as int),
    {
        rest.push(s[i]);
    }
    proof {
        assert(rest@ =~= s@.subrange(pn as int, n as int));
    }
    Some(rest)
}

/// Parses one line as a directive, if its trimmed form starts with one.
pub fn parse_directive(line: &[u8]) -> (r: Option<Directive>)
    ensures
        match r {
            Some(d) => parse_directive_spec(line@) == Some(directive_view(d)),
            None => parse_directive_spec(line@) is None,
        },
{
    let t = trim(line);
    let ifdef: [u8; 7] = [35, 105, 102, 100, 101, 102, 32];
    let ifndef: [u8; 8] = [35, 105, 102, 110, 100, 101, 102, 32];
    let endif: [u8; 6] = [35, 101, 110, 100, 105, 102];
    let define: [u8; 8] = [35, 100, 101, 102, 105, 110, 101, 32];
    let import: [u8; 8] = [35, 105, 109, 112, 111, 114, 116, 32];
    proof {
        assert(ifdef@ =~= ifdef_prefix());
        assert(ifndef@ =~= ifndef_prefix());
        assert(endif@ =~= endif_prefix());
        assert(define@ =~= define_prefix());
        assert(import@ =~= import_prefix());
    }
    if let Some(rest) = strip_prefix(t.as_slice(), ifdef.as_slice()) {
        Some(Directive::IfDef(trim(rest.as_slice())))
    } else if let Some(rest) = strip_prefix(t.as_slice(), ifndef.as_slice()) {
        Some(Directive::IfNDef(trim(rest.as_slice())))
    } else if let Some(_rest) = strip_prefix(t.as_slice(), endif.as_slice()) {
        Some(Directive::EndIf)
    } else if let Some(rest) = strip_prefix(t.as_slice(), define.as_slice()) {
        Some(Directive::Define(trim(rest.as_slice())))
    } else if let Some(rest) = strip_prefix(t.as_slice(), import.as_slice()) {
        Some(Directive::Import(trim(rest.as_slice())))
    } else {
        None
    }
}

/// The spec shape of a parsed directive value.
pub open spec fn directive_view(d: Directive) -> DirectiveSpec {
    match d {
        Directive::IfDef(name) => DirectiveSpec::IfDef(name@),
        Directive::IfNDef(name) => DirectiveSpec::IfNDef(name@),
        Directive::EndIf => DirectiveSpec::EndIf,
        Directive::Define(name) => DirectiveSpec::Define(name@),
        Directive::Import(name) => DirectiveSpec::Import(name@),
    }
}

/// The `#ifdef` line filter. `lines` holds the source split into lines,
/// `defines` the known names, `imports` is kept for future `#import`
/// support.
pub struct Preprocessor {
    pub lines: Vec<Vec<u8>>,
    pub defines: Vec<Vec<u8>>,
    pub imports: Vec<Vec<u8>>,
}

impl Preprocessor {
    /// Splits the source on newlines, like the runs of `str::lines`: a
    /// trailing carriage return is part of a line here but stripped by
    /// `trim` when the line is inspected.
    pub fn new(src: &str) -> (p: Preprocessor)
        ensures
            p.defines@.len() == 0,
            p.imports@.len() == 0,
            line_views(p.lines@) == split_lines_spec(src.spec_bytes()),
    {
        Preprocessor {
            lines: split_lines(src),
            defines: Vec::new(),
            imports: Vec::new(),
        }
    }

    /// The same preprocessor with the given define names.
    pub fn with_defines(self, defines: Vec<Vec<u8>>) -> (p: Preprocessor)
        ensures
            p.lines == self.lines,
            p.defines == defines,
            p.imports == self.imports,
    {
        Preprocessor { defines, ..self }
    }

    /// Adds one define name.
    pub fn define(&mut self, def: Vec<u8>)
        ensures
            final(self).defines@ == old(self).defines@.push(def),
            final(self).lines == old(self).lines,
            final(self).imports == old(self).imports,
    {
        self.defines.push(def);
    }

    /// Whether a name has been defined.
    pub fn is_defined(&self, def: &[u8]) -> (r: bool)
        ensures
            r == defines_contain(line_views(self.defines@), def@),
    {
        let n = self.defines.len();
        for i in 0..n
            invariant
                n == self.defines@.len(),
                forall|j: int| 0 <= j < i ==> line_views(self.defines@)[j] != def@,
        {
            if bytes_eq(self.defines[i].as_slice(), def) {
                proof {
                    assert(line_views(self.defines@)[i as int] == def@);
                }
                return true;
            }
        }
        false
    }

    /// Runs the filter over the lines, consuming directives and dropping the
    /// lines of untaken conditionals; fails on `#import`, leaving the fields
    /// in their mid-run state; the filter makes a single pass and does not
    /// roll back.
    pub fn preprocess(&mut self) -> (r: Result<(), String>)
        ensures
            r is Ok <==> preprocess_spec(
                line_views(old(self).lines@),
                line_views(old(self).defines@),
                0,
                false,
                0,
            ) is Some,
            r is Ok ==> preprocess_spec(
                line_views(old(self).lines@),
                line_views(old(self).defines@),
                0,
                false,
                0,
            ) == Some((line_views(final(self).lines@), line_views(final(self).defines@))),
            final(self).imports == old(self).imports,
    {
        let n = self.lines.len();
        let mut out: Vec<Vec<u8>> = Vec::new();
        let mut depth: i128 = 0;
        let mut ignoring: bool = false;
        let mut ignore_depth: i128 = 0;
        let ghost full = preprocess_spec(
            line_views(self.lines@),
            line_views(self.defines@),
            0,
            false,
            0,
        );
        proof {
            assert(line_views(self.lines@).subrange(0, n as int) =~= line_views(self.lines@));
            match full {
                Some(r) => {
                    assert(line_views(out@) + r.0 =~= r.0);
                },
                None => {},
            }
        }
        for i in 0..n
            invariant
                n == self.lines@.len(),
                self.lines == old(self).lines,
                self.imports == old(self).imports,
                full == preprocess_spec(
                    line_views(old(self).lines@),
                    line_views(old(self).defines@),
                    0,
                    false,
                    0,
                ),
                -(i as int) <= depth <= i as int,
                full == match preprocess_spec(
                    line_views(self.lines@).subrange(i as int, n as int),
                    line_views(self.defines@),
                    depth as int,
                    ignoring,
                    ignore_depth as int,
                ) {
                    Some(r) => Some(
                        (line_views(out@) + r.0, r.1),
                    ),
                    None => None::<(Seq<Seq<u8>>, Seq<Seq<u8>>)>,
                },
        {
            let ghost pre_defines = line_views(self.defines@);
            let ghost sub_pre = line_views(self.lines@).subrange(i as int, n as int);
            proof {
                assert(sub_pre[0] == line_views(self.lines@)[i as int]);
                assert(sub_pre.drop_first() =~= line_views(self.lines@).subrange(
                    i + 1,
                    n as int,
                ));
            }
            let line = &self.lines[i];
            match parse_directive(line.as_slice()) {
                Some(Directive::IfDef(name)) => {
                    depth += 1;
                    if !self.is_defined(name.as_slice()) {
                        ignoring = true;
                        ignore_depth = depth;
                    }
                },
                Some(Directive::IfNDef(name)) => {
                    depth += 1;
                    if self.is_defined(name.as_slice()) {
                        ignoring = true;
                        ignore_depth = depth;
                    }
                },
                Some(Directive::EndIf) => {
                    if ignoring && ignore_depth == depth {
                        ignoring = false;
                        ignore_depth = 0;
                    }
                    depth -= 1;
                },
                Some(Directive::Define(name)) => {
                    self.defines.push(name);
                    proof {
                        assert(line_views(self.defines@) =~= pre_defines.push(
                            self.defines@.last()@,
                        ));
                    }
                },
                Some(Directive::Import(_)) => {
                    return Err("unsupported preprocessor directive".to_owned());
                },
                None => {
                    if !ignoring {
                        out.push(clone_bytes_vec(line));
                        proof {
                            assert(line_views(out@).drop_last() =~= line_views(
                                out@.drop_last(),
                            ));
                        }
                    }
                },
            }
        }
        proof {
            assert(line_views(self.lines@).subrange(n as int, n as int) =~= Seq::<
                Seq<u8>,
            >::empty());
            match preprocess_spec(
                Seq::<Seq<u8>>::empty(),
                line_views(self.defines@),
                depth as int,
                ignoring,
                ignore_depth as int,
            ) {
                Some(r) => {
                    assert(line_views(out@) + r.0 =~= line_views(out@));
                },
                None => {},
            }
        }
        self.lines = out;
        Ok(())
    }

    /// The lines joined back together with newlines.
    pub fn source(&self) -> (r: Vec<u8>)
        ensures
            r@ == join_lines_spec(line_views(self.lines@)),
    {
        join_lines(&self.lines)
    }
}

fn bytes_eq(a: &[u8], b: &[u8]) -> (r: bool)
    ensures
        r == (a@ == b@),
{
    let n = a.len();
    if b.len() != n {
        return false;
    }
    for i in 0..n
        invariant
            n == a@.len(),
            n == b@.len(),
            forall|j: int| 0 <= j < i ==> a@[j] == b@[j],
    {
        if a[i] != b[i] {
            return false;
        }
    }
    proof {
        assert(a@ =~= b@);
    }
    true
}

fn clone_bytes_vec(v: &Vec<u8>) -> (r: Vec<u8>)
    ensures
        r@ == v@,
{
    let mut r: Vec<u8> = Vec::new();
    let n = v.len();
    for i in 0..n
        invariant
            n == v@.len(),
            r@ =~= v@.subrange(0, i as int),
    {
        r.push(v[i]);
    }
    proof {
        assert(r@ =~= v@);
    }
    r
}

/// The byte sequence split at every delimiter byte: splitting the empty text
/// yields one empty piece, a leading delimiter an empty first piece, and any
/// other byte extends the first piece of the rest's split.
pub open spec fn split_on_spec(bytes: Seq<u8>, delim: u8) -> Seq<Seq<u8>>
    decreases bytes.len(),
{
    if bytes.len() == 0 {
        seq![Seq::<u8>::empty()]
    } else if bytes[0] == delim {
        seq![Seq::<u8>::empty()] + split_on_spec(bytes.drop_first(), delim)
    } else {
        let r = split_on_spec(bytes.drop_first(), delim);
        r.update(0, seq![bytes[0]] + r[0])
    }
}

/// The source's bytes split at every newline byte.
pub open spec fn split_lines_spec(bytes: Seq<u8>) -> Seq<Seq<u8>> {
    split_on_spec(bytes, 10)
}

/// A split is never empty: there is always at least one (possibly empty)
/// piece.
pub proof fn lemma_split_on_nonempty(bytes: Seq<u8>, delim: u8)
    ensures
        split_on_spec(bytes, delim).len() >= 1,
    decreases bytes.len(),
{
    if bytes.len() > 0 {
        lemma_split_on_nonempty(bytes.drop_first(), delim);
    }
}

/// The first line of a split, extended at the front.
spec fn prepend_first(c: Seq<u8>, r: Seq<Seq<u8>>) -> Seq<Seq<u8>> {
    r.update(0, c + r[0])
}

/// Splits bytes at every occurrence of the delimiter.
pub fn split_on(bytes: &[u8], delim: u8) -> (r: Vec<Vec<u8>>)
    ensures
        line_views(r@) == split_on_spec(bytes@, delim),
{
    let n = bytes.len();
    let mut done: Vec<Vec<u8>> = Vec::new();
    let mut cur: Vec<u8> = Vec::new();
    proof {
        assert(bytes@.subrange(0, n as int) =~= bytes@);
        lemma_split_on_nonempty(bytes@, delim);
        let r = split_on_spec(bytes@, delim);
        assert(Seq::<u8>::empty() + r[0] =~= r[0]);
        assert(prepend_first(Seq::<u8>::empty(), r) =~~= r);
        assert(line_views(Seq::<Vec<u8>>::empty()) + r =~~= r);
    }
    for i in 0..n
        invariant
            n == bytes@.len(),
            split_on_spec(bytes@, delim) =~~= line_views(done@) + prepend_first(
                cur@,
                split_on_spec(bytes@.subrange(i as int, n as int), delim),
            ),
    {
        let ghost suffix = bytes@.subrange(i as int, n as int);
        proof {
            lemma_split_on_nonempty(suffix.drop_first(), delim);
            assert(suffix[0] == bytes@[i as int]);
            assert(suffix.drop_first() =~= bytes@.subrange(i + 1, n as int));
        }
        let b = bytes[i];
        let ghost cur_old = cur@;
        let ghost done_old = done@;
        if b == delim {
            done.push(cur);
            cur = Vec::new();
            proof {
                let r2 = split_on_spec(suffix.drop_first(), delim);
                assert(split_on_spec(suffix, delim) =~~= seq![Seq::<u8>::empty()] + r2);
                assert(prepend_first(cur_old, seq![Seq::<u8>::empty()] + r2) =~~= seq![cur_old]
                    + r2);
                assert(line_views(done@) =~~= line_views(done_old) + seq![cur_old]);
                assert(Seq::<u8>::empty() + r2[0] =~= r2[0]);
                assert(prepend_first(Seq::<u8>::empty(), r2) =~~= r2);
                assert(line_views(done@) + prepend_first(Seq::<u8>::empty(), r2)
                    =~~= line_views(done_old) + prepend_first(
                    cur_old,
                    split_on_spec(suffix, delim),
                ));
            }
        } else {
            cur.push(b);
            proof {
                let r2 = split_on_spec(suffix.drop_first(), delim);
                assert(split_on_spec(suffix, delim) =~~= r2.update(0, seq![suffix[0]] + r2[0]));
                assert(cur@ =~= cur_old + seq![b]);
                assert(cur@ + r2[0] =~= cur_old + (seq![suffix[0]] + r2[0]));
                assert(prepend_first(cur_old, split_on_spec(suffix, delim)) =~~= prepend_first(
                    cur@,
                    r2,
                ));
            }
        }
    }
    let ghost done_old = done@;
    let ghost cur_old = cur@;
    done.push(cur);
    proof {
        assert(bytes@.subrange(n as int, n as int) =~= Seq::<u8>::empty());
        assert(split_on_spec(Seq::<u8>::empty(), delim) =~= seq![Seq::<u8>::empty()]);
        assert(cur_old + Seq::<u8>::empty() =~= cur_old);
        assert(prepend_first(cur_old, seq![Seq::<u8>::empty()]) =~~= seq![cur_old]);
        assert(line_views(done@) =~~= line_views(done_old) + seq![cur_old]);
    }
    done
}

fn split_lines(src: &str) -> (r: Vec<Vec<u8>>)
    ensures
        line_views(r@) == split_lines_spec(src.spec_bytes()),
{
    split_on(src.as_bytes(), 10)
}

/// Trims every piece of a byte-string list; how loader options are turned
/// into define names.
pub open spec fn trimmed_views(pieces: Seq<Seq<u8>>) -> Seq<Seq<u8>> {
    Seq::new(pieces.len(), |i: int| trim_spec(pieces[i]))
}

/// Splits on a delimiter and trims every piece.
pub fn split_and_trim(bytes: &[u8], delim: u8) -> (r: Vec<Vec<u8>>)
    ensures
        line_views(r@) == trimmed_views(split_on_spec(bytes@, delim)),
{
    let pieces = split_on(bytes, delim);
    let n = pieces.len();
    let mut r: Vec<Vec<u8>> = Vec::new();
    for i in 0..n
        invariant
            n == pieces@.len(),
            line_views(pieces@) == split_on_spec(bytes@, delim),
            r@.len() == i,
            forall|j: int| 0 <= j < i ==> line_views(r@)[j] == trim_spec(line_views(pieces@)[j]),
    {
        let ghost r_old = r@;
        r.push(trim(pieces[i].as_slice()));
        proof {
            assert forall|j: int|
                0 <= j < i + 1 implies line_views(r@)[j] == trim_spec(
                line_views(pieces@)[j],
            ) by {
                if j < i {
                    assert(line_views(r_old)[j] == trim_spec(line_views(pieces@)[j]));
                    assert(r@[j] == r_old[j]);
                } else {
                    assert(r@[j]@ == trim_spec(pieces@[i as int]@));
                }
            }
        }
    }
    proof {
        assert(line_views(r@) =~= trimmed_views(split_on_spec(bytes@, delim)));
    }
    r
}

/// The lines joined with a newline byte between consecutive lines.
pub open spec fn join_lines_spec(lines: Seq<Seq<u8>>) -> Seq<u8>
    decreases lines.len(),
{
    if lines.len() == 0 {
        Seq::empty()
    } else if lines.len() == 1 {
        lines[0]
    } else {
        lines[0] + seq![10u8] + join_lines_spec(lines.drop_first())
    }
}

fn join_lines(lines: &Vec<Vec<u8>>) -> (r: Vec<u8>)
    ensures
        r@ == join_lines_spec(line_views(lines@)),
{
    let mut r: Vec<u8> = Vec::new();
    let n = lines.len();
    for i in 0..n
        invariant
            n == lines@.len(),
            r@ =~= join_prefix(line_views(lines@), i as int),
    {
        if i > 0 {
            r.push(10);
        }
        let line = &lines[i];
        let m = line.len();
        for j in 0..m
            invariant
                n == lines@.len(),
                i < n,
                m == line@.len(),
                line@ == line_views(lines@)[i as int],
                r@ =~= join_prefix(line_views(lines@), i as int) + if i > 0 {
                    seq![10u8]
                } else {
                    Seq::<u8>::empty()
                } + line@.subrange(0, j as int),
        {
            r.push(line[j]);
        }
        proof {
            lemma_join_prefix_step(line_views(lines@), i as int);
        }
    }
    proof {
        lemma_join_prefix_full(line_views(lines@));
    }
    r
}

/// The join of the first `k` lines.
spec fn join_prefix(lines: Seq<Seq<u8>>, k: int) -> Seq<u8> {
    join_lines_spec(lines.subrange(0, k))
}

proof fn lemma_join_prefix_step(lines: Seq<Seq<u8>>, i: int)
    requires
        0 <= i < lines.len(),
    ensures
        join_prefix(lines, i + 1) == join_prefix(lines, i) + if i > 0 {
            seq![10u8]
        } else {
            Seq::<u8>::empty()
        } + lines[i],
    decreases i,
{
    if i == 0 {
        assert(lines.subrange(0, 1) =~= seq![lines[0]]);
        assert(join_prefix(lines, 0) =~= Seq::<u8>::empty());
        assert(join_lines_spec(seq![lines[0]]) == lines[0]);
        assert(join_prefix(lines, 1) =~= Seq::<u8>::empty() + Seq::<u8>::empty() + lines[0]);
    } else if i == 1 {
        assert(lines.subrange(0, 2).drop_first() =~= lines.drop_first().subrange(0, 1));
        assert(lines.drop_first().subrange(0, 1) =~= seq![lines[1]]);
        assert(lines.subrange(0, 2)[0] == lines[0]);
        assert(join_lines_spec(seq![lines[1]]) == lines[1]);
        assert(join_prefix(lines, 2) == lines[0] + seq![10u8] + lines[1]);
        assert(lines.subrange(0, 1) =~= seq![lines[0]]);
        assert(join_prefix(lines, 1) == lines[0]);
        assert(join_prefix(lines, 2) =~= join_prefix(lines, 1) + seq![10u8] + lines[1]);
    } else {
        lemma_join_prefix_step(lines.drop_first(), i - 1);
        assert(lines.subrange(0, i + 1).drop_first() =~= lines.drop_first().subrange(0, i));
        assert(lines.subrange(0, i).drop_first() =~= lines.drop_first().subrange(0, i - 1));
        assert(lines.subrange(0, i + 1)[0] == lines[0]);
        assert(lines.subrange(0, i)[0] == lines[0]);
        assert(lines.drop_first()[i - 1] == lines[i]);
        assert(lines.subrange(0, i + 1).len() == i + 1);
        assert(lines.subrange(0, i).len() == i);
        assert(join_prefix(lines, i + 1) == lines[0] + seq![10u8] + join_prefix(
            lines.drop_first(),
            i,
        ));
        assert(join_prefix(lines, i) == lines[0] + seq![10u8] + join_prefix(
            lines.drop_first(),
            i - 1,
        ));
        assert(join_prefix(lines, i + 1) =~= join_prefix(lines, i) + seq![10u8] + lines[i]);
    }
}

proof fn lemma_join_prefix_full(lines: Seq<Seq<u8>>)
    ensures
        join_prefix(lines, lines.len() as int) == join_lines_spec(lines),
{
    assert(lines.subrange(0, lines.len() as int) =~= lines);
}

} // verus!
