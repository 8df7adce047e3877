//! Walking directories: which paths are ignored (`.gitignore` rules and fixed names), and
//! the unit that file sizes are shown in.
use vstd::prelude::*;
use crate::text::{chars_of, slice_to_vec, split_by, split_on, string_from_chars, trim, trim_spec};

verus! {

/// Size of a file, shown in a human readable form.
pub struct SizeDisplay {
    size: u64,
}

/// Exponent of the unit a size is shown in: 0 (bytes) below 1024, else the first `k` from 1
/// on with the size below `1024^(k+1)`, at most 5.
pub open spec fn size_exponent(size: u64) -> nat {
    if size < 1024 {
        0
    } else if size < 1024 * 1024 {
        1
    } else if size < 1024 * 1024 * 1024 {
        2
    } else if size < 1024 * 1024 * 1024 * 1024 {
        3
    } else if size < 1024 * 1024 * 1024 * 1024 * 1024 {
        4
    } else {
        5
    }
}

/// Mark of the unit with the given exponent.
pub open spec fn size_mark(exponent: nat) -> char {
    if exponent == 0 {
        'B'
    } else if exponent == 1 {
        'K'
    } else if exponent == 2 {
        'M'
    } else if exponent == 3 {
        'G'
    } else if exponent == 4 {
        'T'
    } else {
        'P'
    }
}

impl SizeDisplay {
    pub closed spec fn size_view(&self) -> u64 {
        self.size
    }

    pub fn new(size: u64) -> (r: Self)
        ensures
            r.size_view() == size,
    {
        SizeDisplay { size }
    }

    pub fn size(&self) -> (r: u64)
        ensures
            r == self.size_view(),
    {
        self.size
    }

    /// The unit the size is shown in: its mark and the power of 1024 it stands for. Below
    /// 1024 the size is shown in bytes; above, divided by the largest power of 1024 that
    /// keeps it at or above one, up to `P`.
    pub fn unit(&self) -> (r: (char, u32))
        ensures
            r.0 == size_mark(size_exponent(self.size_view())),
            r.1 == size_exponent(self.size_view()),
    {
        let size = self.size;
        if size < 1024 {
            ('B', 0)
        } else if size < 1048576 {
            ('K', 1)
        } else if size < 1073741824 {
            ('M', 2)
        } else if size < 1099511627776 {
            ('G', 3)
        } else if size < 1125899906842624 {
            ('T', 4)
        } else {
            ('P', 5)
        }
    }
}

/// A path taken by its components: whether it starts at the root, and the names between
/// separators (empty names and `.` are dropped).
pub open spec fn is_component(c: Seq<char>) -> bool {
    c.len() > 0 && c != seq!['.']
}

pub open spec fn components(p: Seq<char>) -> Seq<Seq<char>> {
    split_on(p, '/').filter(|c: Seq<char>| is_component(c))
}

pub open spec fn has_root(p: Seq<char>) -> bool {
    p.len() > 0 && p[0] == '/'
}

/// Components of `path` after those of `root`, when `root` is a prefix of `path`.
pub open spec fn strip_root(path: Seq<char>, root: Seq<char>) -> Option<Seq<Seq<char>>> {
    let pc = components(path);
    let rc = components(root);
    if has_root(path) == has_root(root) && rc.len() <= pc.len() && pc.take(rc.len() as int) == rc {
        Some(pc.skip(rc.len() as int))
    } else {
        None
    }
}

/// Components joined with `/`.
pub open spec fn join_components(cs: Seq<Seq<char>>) -> Seq<char>
    decreases cs.len(),
{
    if cs.len() == 0 {
        seq![]
    } else if cs.len() == 1 {
        cs[0]
    } else {
        join_components(cs.drop_last()) + seq!['/'] + cs.last()
    }
}

/// Name of the last component, empty when there is none or it is `..`.
pub open spec fn file_name_of(cs: Seq<Seq<char>>) -> Seq<char> {
    if cs.len() == 0 || cs.last() == seq!['.', '.'] {
        seq![]
    } else {
        cs.last()
    }
}

fn path_components(p: &[char]) -> (r: Vec<Vec<char>>)
    ensures
        r.deep_view() == components(p@),
{
    let parts = split_by(p, '/');
    let ghost ps = split_on(p@, '/');
    let ghost pred = |c: Seq<char>| is_component(c);
    let mut r: Vec<Vec<char>> = Vec::new();
    let mut i: usize = 0;
    while i < parts.len()
        invariant
            parts.deep_view() == ps,
            0 <= i <= ps.len(),
            pred == (|c: Seq<char>| is_component(c)),
            r.deep_view() == ps.take(i as int).filter(pred),
        decreases ps.len() - i,
    {
        let ghost before = r.deep_view();
        proof {
            reveal(Seq::filter);
            assert(ps.take(i as int + 1).drop_last() =~= ps.take(i as int));
            assert(ps.take(i as int + 1).last() == ps[i as int]);
        }
        assert(parts@[i as int]@ == ps[i as int]);
        let part = &parts[i];
        let dot = part.len() == 1 && part[0] == '.';
        proof {
            if part@.len() == 1 {
                assert(dot == (part@ =~= seq!['.']));
            }
        }
        if part.len() > 0 && !dot {
            let mut copy: Vec<char> = Vec::new();
            let mut k: usize = 0;
            while k < part.len()
                invariant
                    0 <= k <= part@.len(),
                    copy@ == part@.take(k as int),
                decreases part@.len() - k,
            {
                copy.push(part[k]);
                k = k + 1;
                assert(copy@ =~= part@.take(k as int));
            }
            assert(part@.take(k as int) =~= part@);
            r.push(copy);
            assert(r.deep_view() =~= before.push(ps[i as int]));
        }
        i = i + 1;
    }
    assert(ps.take(ps.len() as int) =~= ps);
    r
}

fn same_chars(a: &Vec<char>, b: &Vec<char>) -> (r: bool)
    ensures
        r == (a@ == b@),
{
    if a.len() != b.len() {
        return false;
    }
    let mut i: usize = 0;
    while i < a.len()
        invariant
            a@.len() == b@.len(),
            0 <= i <= a@.len(),
            forall|k: int| 0 <= k < i ==> a@[k] == b@[k],
        decreases a@.len() - i,
    {
        if a[i] != b[i] {
            return false;
        }
        i = i + 1;
    }
    assert(a@ =~= b@);
    true
}

/// The path relative to `root` and its file name, when `root` is a prefix of `path`.
pub fn strip_root_exec(path: &str, root: &str) -> (r: Option<(String, String)>)
    ensures
        r is Some <==> strip_root(path@, root@) is Some,
        r matches Some(x) ==> x.0@ == join_components(strip_root(path@, root@)->Some_0) && x.1@
            == file_name_of(strip_root(path@, root@)->Some_0),
{
    let p = chars_of(path);
    let q = chars_of(root);
    let pc = path_components(p.as_slice());
    let rc = path_components(q.as_slice());
    let p_root = p.len() > 0 && p[0] == '/';
    let r_root = q.len() > 0 && q[0] == '/';
    if p_root != r_root || rc.len() > pc.len() {
        return None;
    }
    let ghost pv = pc.deep_view();
    let ghost rv = rc.deep_view();
    assert(p_root == has_root(path@) && r_root == has_root(root@));
    let mut i: usize = 0;
    while i < rc.len()
        invariant
            pv == pc.deep_view(),
            rv == rc.deep_view(),
            pv == components(path@),
            rv == components(root@),
            has_root(path@) == has_root(root@),
            rv.len() <= pv.len(),
            0 <= i <= rv.len(),
            forall|k: int| 0 <= k < i ==> pv[k] == rv[k],
        decreases rv.len() - i,
    {
        assert(pc@[i as int]@ == pv[i as int] && rc@[i as int]@ == rv[i as int]);
        if !same_chars(&pc[i], &rc[i]) {
            assert(pv.take(rv.len() as int)[i as int] != rv[i as int]);
            return None;
        }
        i = i + 1;
    }
    assert(pv.take(rv.len() as int) =~= rv);
    let ghost rest = pv.skip(rv.len() as int);
    let mut text: Vec<char> = Vec::new();
    let mut j: usize = rc.len();
    assert(rest.take(0) =~= Seq::<Seq<char>>::empty());
    while j < pc.len()
        invariant
            pv == pc.deep_view(),
            rv == rc.deep_view(),
            rest == pv.skip(rv.len() as int),
            rv.len() <= j <= pv.len(),
            text@ == join_components(rest.take(j - rv.len())),
        decreases pv.len() - j,
    {
        let k = j - rc.len();
        proof {
            assert(rest.take(k + 1).drop_last() =~= rest.take(k as int));
            assert(rest[k as int] == pv[j as int]);
        }
        if j > rc.len() {
            text.push('/');
        }
        assert(pc@[j as int]@ == pv[j as int]);
        let part = &pc[j];
        let ghost head = text@;
        let mut m: usize = 0;
        while m < part.len()
            invariant
                0 <= m <= part@.len(),
                text@ == head + part@.take(m as int),
            decreases part@.len() - m,
        {
            text.push(part[m]);
            m = m + 1;
            assert(text@ =~= head + part@.take(m as int));
        }
        assert(part@.take(m as int) =~= part@);
        j = j + 1;
        proof {
            if k == 0 {
                assert(text@ =~= rest[0]);
            } else {
                assert(text@ =~= join_components(rest.take(k as int)) + seq!['/'] + rest[k as int]);
            }
        }
    }
    assert(rest.take(j - rv.len()) =~= rest);
    let name: Vec<char> = if pc.len() > rc.len() {
        let last = &pc[pc.len() - 1];
        assert(pc@[pc.len() - 1]@ == pv[pv.len() - 1]);
        assert(rest.last() == pv.last());
        let dotdot = last.len() == 2 && last[0] == '.' && last[1] == '.';
        proof {
            if last@.len() == 2 {
                assert(dotdot == (last@ =~= seq!['.', '.']));
            }
        }
        if dotdot {
            Vec::new()
        } else {
            let mut copy: Vec<char> = Vec::new();
            let mut k: usize = 0;
            while k < last.len()
                invariant
                    0 <= k <= last@.len(),
                    copy@ == last@.take(k as int),
                decreases last@.len() - k,
            {
                copy.push(last[k]);
                k = k + 1;
                assert(copy@ =~= last@.take(k as int));
            }
            assert(last@.take(k as int) =~= last@);
            copy
        }
    } else {
        Vec::new()
    };
    assert(name@ =~= file_name_of(rest));
    Some((string_from_chars(text.as_slice()), string_from_chars(name.as_slice())))
}

/// `s` without the leading `c`s.
pub open spec fn trim_start_char(s: Seq<char>, c: char) -> Seq<char>
    decreases s.len(),
{
    if s.len() > 0 && s[0] == c {
        trim_start_char(s.drop_first(), c)
    } else {
        s
    }
}

/// `s` without the trailing `c`s.
pub open spec fn trim_end_char(s: Seq<char>, c: char) -> Seq<char>
    decreases s.len(),
{
    if s.len() > 0 && s.last() == c {
        trim_end_char(s.drop_last(), c)
    } else {
        s
    }
}

fn strip_start_char(s: &[char], c: char) -> (r: Vec<char>)
    ensures
        r@ == trim_start_char(s@, c),
{
    let mut i: usize = 0;
    assert(s@.skip(0) =~= s@);
    while i < s.len() && s[i] == c
        invariant
            0 <= i <= s@.len(),
            trim_start_char(s@.skip(i as int), c) == trim_start_char(s@, c),
        decreases s@.len() - i,
    {
        assert(s@.skip(i as int).drop_first() =~= s@.skip(i + 1));
        i = i + 1;
    }
    let r = slice_to_vec(s, i, s.len());
    assert(r@ =~= s@.skip(i as int));
    r
}

fn strip_end_char(s: &[char], c: char) -> (r: Vec<char>)
    ensures
        r@ == trim_end_char(s@, c),
{
    let mut end: usize = s.len();
    assert(s@.take(s@.len() as int) =~= s@);
    while end > 0 && s[end - 1] == c
        invariant
            0 <= end <= s@.len(),
            trim_end_char(s@.take(end as int), c) == trim_end_char(s@, c),
        decreases end,
    {
        assert(s@.take(end as int).drop_last() =~= s@.take(end - 1));
        end = end - 1;
    }
    let r = slice_to_vec(s, 0, end);
    assert(r@ =~= s@.take(end as int));
    r
}

/// A rule of a `.gitignore` line as plain values: its glob, and whether it looks at the
/// file name only, at directories only, and whether it takes what it matches back out of
/// the ignored ones (`!`).
pub type GitRule = (Seq<char>, bool, bool, bool);

/// The rule a line of a `.gitignore` file holds: none for a blank line or a comment.
pub open spec fn gitignore_line(line: Seq<char>) -> Option<GitRule> {
    let t = trim_spec(line);
    if t.len() == 0 || t[0] == '#' {
        None
    } else {
        let is_dir = t.last() == '/';
        let t1 = trim_end_char(t, '/');
        let is_whitelist = t1.len() > 0 && t1[0] == '!';
        let t2 = trim_start_char(t1, '!');
        let is_filename = !t2.contains('/');
        Some((trim_start_char(t2, '/'), is_filename, is_dir, is_whitelist))
    }
}

/// Whether `globset` builds a glob from the text, with `/` matched literally, and a glob set
/// of that one glob from it.
pub uninterp spec fn glob_builds(pattern: Seq<char>) -> bool;

/// Whether the glob set built from the pattern matches the path.
pub uninterp spec fn glob_matches(pattern: Seq<char>, path: Seq<char>) -> bool;

/// Rules of the lines, in order, leaving out those whose glob does not build.
pub open spec fn rules_of(lines: Seq<Seq<char>>) -> Seq<GitRule>
    decreases lines.len(),
{
    if lines.len() == 0 {
        seq![]
    } else {
        let prev = rules_of(lines.drop_last());
        match gitignore_line(lines.last()) {
            Some(rule) => if glob_builds(rule.0) {
                prev.push(rule)
            } else {
                prev
            },
            None => prev,
        }
    }
}

/// Rules of a `.gitignore` text.
pub open spec fn gitignore_rules(text: Seq<char>) -> Seq<GitRule> {
    rules_of(split_on(text, '\n'))
}

/// Whether a rule matches: directories-only rules skip other paths; file name rules look at
/// the file name, the others at the whole path.
pub open spec fn rule_applies(rule: GitRule, path: Seq<char>, file_name: Seq<char>, is_dir: bool) -> bool {
    !(rule.2 && !is_dir) && glob_matches(
        rule.0,
        if rule.1 {
            file_name
        } else {
            path
        },
    )
}

/// A path is ignored when no re-including rule matches it and some ignoring rule does.
pub open spec fn git_ignores(
    positive: Seq<GitRule>,
    negative: Seq<GitRule>,
    path: Seq<char>,
    file_name: Seq<char>,
    is_dir: bool,
) -> bool {
    &&& !(exists|i: int| 0 <= i < negative.len() && #[trigger] rule_applies(negative[i], path, file_name, is_dir))
    &&& exists|i: int| 0 <= i < positive.len() && #[trigger] rule_applies(positive[i], path, file_name, is_dir)
}

#[verifier::external_type_specification]
#[verifier::external_body]
pub struct ExGlobSet(globset::GlobSet);

/// A compiled rule of a `.gitignore` file.
pub struct GitGlob {
    pattern: String,
    matcher: globset::GlobSet,
    is_filename: bool,
    is_dir: bool,
    is_whitelist: bool,
}

impl GitGlob {
    pub closed spec fn rule(&self) -> GitRule {
        (self.pattern@, self.is_filename, self.is_dir, self.is_whitelist)
    }
}

/// Builds the glob with `globset::GlobBuilder::new(pattern).literal_separator(true).build()`
/// and a glob set of it with `GlobSetBuilder::add` and `GlobSetBuilder::build`, both of which
/// report failure (a glob that does not parse, a regular expression over the size limit) as
/// an error. Claimed: a set comes back exactly when both builds succeed, which `glob_builds`
/// names. Not claimed: `build` unwraps the Aho-Corasick automaton of a literal prefix or
/// suffix, which fails only for an automaton too large for its state ids; which patterns
/// would do so is not stated.
#[verifier::external_body]
fn compile_glob(pattern: &str) -> (r: Option<globset::GlobSet>)
    ensures
        r is Some <==> glob_builds(pattern@),
{
    match globset::GlobBuilder::new(pattern).literal_separator(true).build() {
        Ok(glob) => {
            let mut builder = globset::GlobSetBuilder::new();
            builder.add(glob);
            builder.build().ok()
        },
        Err(_) => None,
    }
}

/// `GlobSet::is_match` of the rule's glob set on a path. Claimed: the result is what
/// `glob_matches` names for the rule's pattern and the path (a rule's set is always the one
/// built from its pattern).
#[verifier::external_body]
fn glob_is_match(glob: &GitGlob, path: &str) -> (r: bool)
    ensures
        r == glob_matches(glob.rule().0, path@),
{
    glob.matcher.is_match(path)
}

/// The rule of one line, compiled.
fn parse_gitignore_line(line: &[char]) -> (r: Option<GitGlob>)
    ensures
        r is Some <==> (gitignore_line(line@) matches Some(rule) && glob_builds(rule.0)),
        r matches Some(g) ==> gitignore_line(line@) == Some(g.rule()),
{
    let t = trim(line);
    if t.len() == 0 || t[0] == '#' {
        return None;
    }
    let is_dir = t[t.len() - 1] == '/';
    let t1 = strip_end_char(t.as_slice(), '/');
    let is_whitelist = t1.len() > 0 && t1[0] == '!';
    let t2 = strip_start_char(t1.as_slice(), '!');
    let mut has_slash = false;
    let mut k: usize = 0;
    while k < t2.len()
        invariant
            0 <= k <= t2@.len(),
            has_slash <==> exists|m: int| 0 <= m < k && t2@[m] == '/',
        decreases t2@.len() - k,
    {
        if t2[k] == '/' {
            has_slash = true;
        }
        k = k + 1;
    }
    let t3 = strip_start_char(t2.as_slice(), '/');
    let pattern = string_from_chars(t3.as_slice());
    match compile_glob(pattern.as_str()) {
        Some(matcher) => Some(GitGlob { pattern, matcher, is_filename: !has_slash, is_dir, is_whitelist }),
        None => None,
    }
}

/// What a `.gitignore` file says: the rules that ignore and those that take back out, each
/// in file order, for the paths under its directory.
pub struct PathIgnoreGit {
    positive: Vec<GitGlob>,
    negative: Vec<GitGlob>,
    root: String,
}

pub open spec fn rules_view(gs: Seq<GitGlob>) -> Seq<GitRule> {
    gs.map_values(|g: GitGlob| g.rule())
}

impl PathIgnoreGit {
    pub closed spec fn positive_view(&self) -> Seq<GitRule> {
        rules_view(self.positive@)
    }

    pub closed spec fn negative_view(&self) -> Seq<GitRule> {
        rules_view(self.negative@)
    }

    pub closed spec fn root_view(&self) -> Seq<char> {
        self.root@
    }

    /// Rules of the text of a `.gitignore` file in the directory `root`.
    pub fn from_text(text: &str, root: String) -> (r: Self)
        ensures
            r.positive_view() == gitignore_rules(text@).filter(|g: GitRule| !g.3),
            r.negative_view() == gitignore_rules(text@).filter(|g: GitRule| g.3),
            r.root_view() == root@,
    {
        let chars = chars_of(text);
        let lines = split_by(chars.as_slice(), '\n');
        let ghost ls = split_on(text@, '\n');
        let ghost pos = |g: GitRule| !g.3;
        let ghost neg = |g: GitRule| g.3;
        let mut positive: Vec<GitGlob> = Vec::new();
        let mut negative: Vec<GitGlob> = Vec::new();
        let mut i: usize = 0;
        proof {
            reveal(Seq::filter);
        }
        while i < lines.len()
            invariant
                lines.deep_view() == ls,
                0 <= i <= ls.len(),
                pos == (|g: GitRule| !g.3),
                neg == (|g: GitRule| g.3),
                rules_view(positive@) == rules_of(ls.take(i as int)).filter(pos),
                rules_view(negative@) == rules_of(ls.take(i as int)).filter(neg),
            decreases ls.len() - i,
        {
            let ghost prev = rules_of(ls.take(i as int));
            let ghost before_p = rules_view(positive@);
            let ghost before_n = rules_view(negative@);
            proof {
                assert(ls.take(i + 1).drop_last() =~= ls.take(i as int));
                assert(ls.take(i + 1).last() == ls[i as int]);
            }
            assert(lines@[i as int]@ == ls[i as int]);
            match parse_gitignore_line(lines[i].as_slice()) {
                Some(g) => {
                    let ghost rule = g.rule();
                    proof {
                        assert(rules_of(ls.take(i + 1)) == prev.push(rule));
                        prev.lemma_filter_push(rule, pos);
                        prev.lemma_filter_push(rule, neg);
                    }
                    if g.is_whitelist {
                        negative.push(g);
                        assert(rules_view(negative@) =~= before_n.push(rule));
                    } else {
                        positive.push(g);
                        assert(rules_view(positive@) =~= before_p.push(rule));
                    }
                },
                None => {
                    assert(rules_of(ls.take(i + 1)) == prev);
                },
            }
            i = i + 1;
        }
        assert(ls.take(i as int) =~= ls);
        PathIgnoreGit { positive, negative, root }
    }

    fn any_applies(globs: &Vec<GitGlob>, path: &str, file_name: &str, is_dir: bool) -> (r: bool)
        ensures
            r == exists|i: int|
                0 <= i < rules_view(globs@).len() && #[trigger] rule_applies(
                    rules_view(globs@)[i],
                    path@,
                    file_name@,
                    is_dir,
                ),
    {
        let ghost rs = rules_view(globs@);
        let mut i: usize = 0;
        while i < globs.len()
            invariant
                rs == rules_view(globs@),
                0 <= i <= globs@.len(),
                forall|k: int| 0 <= k < i ==> !#[trigger] rule_applies(rs[k], path@, file_name@, is_dir),
            decreases globs@.len() - i,
        {
            let glob = &globs[i];
            assert(rs[i as int] == glob.rule());
            if !(glob.is_dir && !is_dir) {
                let matched = if glob.is_filename {
                    glob_is_match(glob, file_name)
                } else {
                    glob_is_match(glob, path)
                };
                if matched {
                    assert(rule_applies(rs[i as int], path@, file_name@, is_dir));
                    return true;
                }
            }
            i = i + 1;
        }
        false
    }
}

/// Something that decides which paths a walk leaves out.
pub trait PathIgnore {
    spec fn ignores(&self, path: Seq<char>, is_dir: bool) -> bool;

    fn matches(&self, path: &str, is_dir: bool) -> (r: bool)
        ensures
            r == self.ignores(path@, is_dir),
    ;
}

impl PathIgnore for PathIgnoreGit {
    /// Paths outside the directory of the file are not ignored.
    open spec fn ignores(&self, path: Seq<char>, is_dir: bool) -> bool {
        match strip_root(path, self.root_view()) {
            None => false,
            Some(cs) => git_ignores(
                self.positive_view(),
                self.negative_view(),
                join_components(cs),
                file_name_of(cs),
                is_dir,
            ),
        }
    }

    fn matches(&self, path: &str, is_dir: bool) -> (r: bool) {
        let (relative, file_name) = match strip_root_exec(path, self.root.as_str()) {
            None => {
                return false;
            },
            Some(x) => x,
        };
        if PathIgnoreGit::any_applies(&self.negative, relative.as_str(), file_name.as_str(), is_dir) {
            return false;
        }
        PathIgnoreGit::any_applies(&self.positive, relative.as_str(), file_name.as_str(), is_dir)
    }
}

/// Paths whose file name is one of the given names.
pub struct PathIgnoreSet {
    pub filenames: Vec<String>,
}

pub open spec fn names_view(names: Seq<String>) -> Seq<Seq<char>> {
    names.map_values(|n: String| n@)
}

impl Default for PathIgnoreSet {
    /// The directories of version control systems: `.hg` and `.git`.
    fn default() -> (r: Self)
        ensures
            names_view(r.filenames@) == seq![".hg"@, ".git"@],
    {
        let mut filenames: Vec<String> = Vec::new();
        filenames.push(".hg".to_owned());
        filenames.push(".git".to_owned());
        let r = PathIgnoreSet { filenames };
        assert(names_view(r.filenames@) =~= seq![".hg"@, ".git"@]);
        r
    }
}

impl PathIgnore for PathIgnoreSet {
    open spec fn ignores(&self, path: Seq<char>, is_dir: bool) -> bool {
        names_view(self.filenames@).contains(file_name_of(components(path)))
    }

    fn matches(&self, path: &str, is_dir: bool) -> (r: bool) {
        let chars = chars_of(path);
        let cs = path_components(chars.as_slice());
        let ghost cv = cs.deep_view();
        let name: Vec<char> = if cs.len() > 0 {
            let last = &cs[cs.len() - 1];
            assert(cs@[cs.len() - 1]@ == cv.last());
            let dotdot = last.len() == 2 && last[0] == '.' && last[1] == '.';
            proof {
                if last@.len() == 2 {
                    assert(dotdot == (last@ =~= seq!['.', '.']));
                }
            }
            if dotdot {
                Vec::new()
            } else {
                slice_to_vec(last.as_slice(), 0, last.len())
            }
        } else {
            Vec::new()
        };
        assert(name@ =~= file_name_of(cv));
        let ghost names = names_view(self.filenames@);
        let mut i: usize = 0;
        while i < self.filenames.len()
            invariant
                names == names_view(self.filenames@),
                name@ == file_name_of(components(path@)),
                0 <= i <= names.len(),
                forall|k: int| 0 <= k < i ==> names[k] != name@,
            decreases names.len() - i,
        {
            let candidate = chars_of(self.filenames[i].as_str());
            assert(names[i as int] == self.filenames@[i as int]@);
            if same_chars(&candidate, &name) {
                assert(names[i as int] == name@);
                return true;
            }
            i = i + 1;
        }
        false
    }
}

/// Ignores what either of two ignores ignores; the first is asked first.
pub struct PathIgnoreChain<F, S> {
    first: F,
    second: S,
}

impl<F, S> PathIgnoreChain<F, S> {
    pub fn new(first: F, second: S) -> (r: Self)
        ensures
            r.first_view() == first,
            r.second_view() == second,
    {
        PathIgnoreChain { first, second }
    }

    pub closed spec fn first_view(&self) -> F {
        self.first
    }

    pub closed spec fn second_view(&self) -> S {
        self.second
    }
}

impl<F: PathIgnore, S: PathIgnore> PathIgnore for PathIgnoreChain<F, S> {
    open spec fn ignores(&self, path: Seq<char>, is_dir: bool) -> bool {
        self.first_view().ignores(path, is_dir) || self.second_view().ignores(path, is_dir)
    }

    fn matches(&self, path: &str, is_dir: bool) -> (r: bool) {
        self.first.matches(path, is_dir) || self.second.matches(path, is_dir)
    }
}

} // verus!
