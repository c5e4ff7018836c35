//! What a capture leaves out and how far it goes: exclusion patterns,
//! whether symbolic links are followed, and the limits on file size and
//! count.
use vstd::prelude::*;
use crate::text::{chars_of, owned, str_eq, string_from_chars};

verus! {

/// Capture settings.
#[derive(Debug, Clone)]
pub struct Options {
    /// Glob patterns of paths to leave out.
    pub exclude_patterns: Vec<String>,
    /// Follow symbolic links instead of recording them.
    pub follow_symlinks: bool,
    /// Largest file captured, in bytes.
    pub max_file_size: i64,
    /// Most files captured.
    pub max_files: usize,
}

impl Default for Options {
    fn default() -> (o: Options)
        ensures
            o.exclude_patterns@.len() == 0,
            !o.follow_symlinks,
            o.max_file_size == 100 * 1024 * 1024,
            o.max_files == 100_000,
    {
        Options { exclude_patterns: Vec::new(), follow_symlinks: false, max_file_size: 100 * 1024 * 1024, max_files: 100_000 }
    }
}

/// A change to the capture settings.
#[derive(Debug, Clone)]
pub enum SnapshotOption {
    /// Adds exclusion patterns.
    Exclude(Vec<String>),
    /// Follows symbolic links.
    FollowSymlinks,
    /// Sets the largest file size.
    MaxFileSize(i64),
    /// Sets the most files.
    MaxFiles(usize),
}

/// Leaves out paths matching these patterns.
pub fn with_exclude(patterns: Vec<String>) -> (o: SnapshotOption)
    ensures
        o matches SnapshotOption::Exclude(p) && p@ == patterns@,
{
    SnapshotOption::Exclude(patterns)
}

/// Follows symbolic links.
pub fn with_follow_symlinks() -> (o: SnapshotOption)
    ensures
        o matches SnapshotOption::FollowSymlinks,
{
    SnapshotOption::FollowSymlinks
}

/// Sets the largest file captured.
pub fn with_max_file_size(bytes: i64) -> (o: SnapshotOption)
    ensures
        o matches SnapshotOption::MaxFileSize(b) && b == bytes,
{
    SnapshotOption::MaxFileSize(bytes)
}

/// Sets the most files captured.
pub fn with_max_files(count: usize) -> (o: SnapshotOption)
    ensures
        o matches SnapshotOption::MaxFiles(c) && c == count,
{
    SnapshotOption::MaxFiles(count)
}

pub open spec fn strings_view(v: Seq<String>) -> Seq<Seq<char>> {
    v.map_values(|s: String| s@)
}

impl SnapshotOption {
    /// Applies the option.
    pub fn apply(&self, o: &mut Options)
        ensures
            match self {
                SnapshotOption::Exclude(p) => strings_view(final(o).exclude_patterns@) == strings_view(
                    old(o).exclude_patterns@,
                ) + strings_view(p@) && final(o).follow_symlinks == old(o).follow_symlinks
                    && final(o).max_file_size == old(o).max_file_size && final(o).max_files == old(o).max_files,
                SnapshotOption::FollowSymlinks => final(o).follow_symlinks && final(o).exclude_patterns@
                    == old(o).exclude_patterns@ && final(o).max_file_size == old(o).max_file_size
                    && final(o).max_files == old(o).max_files,
                SnapshotOption::MaxFileSize(b) => final(o).max_file_size == b && final(o).exclude_patterns@
                    == old(o).exclude_patterns@ && final(o).follow_symlinks == old(o).follow_symlinks
                    && final(o).max_files == old(o).max_files,
                SnapshotOption::MaxFiles(c) => final(o).max_files == c && final(o).exclude_patterns@
                    == old(o).exclude_patterns@ && final(o).follow_symlinks == old(o).follow_symlinks
                    && final(o).max_file_size == old(o).max_file_size,
            },
    {
        match self {
            SnapshotOption::Exclude(p) => {
                let mut i: usize = 0;
                let ghost start = strings_view(o.exclude_patterns@);
                while i < p.len()
                    invariant
                        i <= p@.len(),
                        strings_view(o.exclude_patterns@) == start + strings_view(p@.take(i as int)),
                        o.follow_symlinks == old(o).follow_symlinks,
                        o.max_file_size == old(o).max_file_size,
                        o.max_files == old(o).max_files,
                    decreases p@.len() - i,
                {
                    let ghost before = o.exclude_patterns@;
                    let x = owned(p[i].as_str());
                    o.exclude_patterns.push(x);
                    assert(strings_view(o.exclude_patterns@) =~= strings_view(before).push(p@[i as int]@));
                    assert(strings_view(p@.take(i + 1)) =~= strings_view(p@.take(i as int)).push(p@[i as int]@));
                    assert(strings_view(o.exclude_patterns@) =~= start + strings_view(p@.take(i + 1)));
                    i = i + 1;
                }
                assert(p@.take(p@.len() as int) =~= p@);
            },
            SnapshotOption::FollowSymlinks => {
                o.follow_symlinks = true;
            },
            SnapshotOption::MaxFileSize(b) => {
                o.max_file_size = *b;
            },
            SnapshotOption::MaxFiles(c) => {
                o.max_files = *c;
            },
        }
    }
}

/// The settings as plain values: exclusion patterns, whether links are
/// followed, largest file size, most files.
pub open spec fn options_view(o: Options) -> (Seq<Seq<char>>, bool, i64, usize) {
    (strings_view(o.exclude_patterns@), o.follow_symlinks, o.max_file_size, o.max_files)
}

/// The settings after one option.
pub open spec fn option_effect(opt: SnapshotOption, v: (Seq<Seq<char>>, bool, i64, usize)) -> (Seq<Seq<char>>, bool, i64, usize) {
    match opt {
        SnapshotOption::Exclude(p) => (v.0 + strings_view(p@), v.1, v.2, v.3),
        SnapshotOption::FollowSymlinks => (v.0, true, v.2, v.3),
        SnapshotOption::MaxFileSize(b) => (v.0, v.1, b, v.3),
        SnapshotOption::MaxFiles(c) => (v.0, v.1, v.2, c),
    }
}

/// The settings after the options, applied in order to the defaults.
pub open spec fn options_after(opts: Seq<SnapshotOption>) -> (Seq<Seq<char>>, bool, i64, usize)
    decreases opts.len(),
{
    if opts.len() == 0 {
        (Seq::empty(), false, 104_857_600i64, 100_000usize)
    } else {
        option_effect(opts.last(), options_after(opts.drop_last()))
    }
}

/// The settings that the options give, from the defaults.
pub fn options_from(opts: &Vec<SnapshotOption>) -> (o: Options)
    ensures
        options_view(o) == options_after(opts@),
{
    let mut o = Options::default();
    assert(options_view(o) =~= options_after(opts@.take(0)));
    let mut i: usize = 0;
    while i < opts.len()
        invariant
            i <= opts@.len(),
            options_view(o) == options_after(opts@.take(i as int)),
        decreases opts@.len() - i,
    {
        proof {
            assert(opts@.take(i + 1).drop_last() =~= opts@.take(i as int));
            assert(opts@.take(i + 1).last() == opts@[i as int]);
        }
        opts[i].apply(&mut o);
        i = i + 1;
    }
    assert(opts@.take(opts@.len() as int) =~= opts@);
    o
}

// ---------------------------------------------------------------------------
// Exclusion
// ---------------------------------------------------------------------------

/// Whether `glob::Pattern::new(pattern)` compiles and its `matches` accepts
/// the path; an invalid pattern matches nothing.
pub uninterp spec fn glob_matches(pattern: Seq<char>, path: Seq<char>) -> bool;

/// Compiles the pattern with `glob::Pattern::new` and tests the path with
/// `Pattern::matches`; a pattern that does not compile gives `false`.  The
/// result is named by [`glob_matches`].
#[verifier::external_body]
fn glob_match(pattern: &str, path: &str) -> (r: bool)
    ensures
        r == glob_matches(pattern@, path@),
{
    match glob::Pattern::new(pattern) {
        Ok(p) => p.matches(path),
        Err(_) => false,
    }
}

/// The path with backslashes turned into slashes.
pub open spec fn normalized(p: Seq<char>) -> Seq<char> {
    p.map_values(|c: char| if c == '\\' { '/' } else { c })
}

fn normalize_path(p: &str) -> (r: Vec<char>)
    ensures
        r@ == normalized(p@),
{
    let cs = chars_of(p);
    let mut out: Vec<char> = Vec::new();
    let mut i: usize = 0;
    while i < cs.len()
        invariant
            cs@ == p@,
            i <= cs@.len(),
            out@ == normalized(cs@.take(i as int)),
        decreases cs@.len() - i,
    {
        out.push(if cs[i] == '\\' { '/' } else { cs[i] });
        assert(normalized(cs@.take(i + 1)) =~= normalized(cs@.take(i as int)).push(
            if cs@[i as int] == '\\' { '/' } else { cs@[i as int] },
        ));
        i = i + 1;
    }
    assert(cs@.take(cs@.len() as int) =~= cs@);
    out
}

/// The last component of a path, as `Path::file_name` gives it: the last
/// part between slashes that is neither empty nor `.`; nothing when that
/// part is `..` or there is none.
pub open spec fn last_part(p: Seq<char>) -> Seq<char>
    decreases p.len(),
{
    if p.len() == 0 {
        Seq::empty()
    } else if p.last() == '/' {
        last_part(p.drop_last())
    } else {
        let part = after_slash(p);
        if part == seq!['.'] {
            last_part(p.subrange(0, p.len() - 1))
        } else if part == seq!['.', '.'] {
            Seq::empty()
        } else {
            part
        }
    }
}

/// The text after the last slash (all of it without one).
pub open spec fn after_slash(p: Seq<char>) -> Seq<char>
    decreases p.len(),
{
    if p.len() == 0 {
        Seq::empty()
    } else if p.last() == '/' {
        Seq::empty()
    } else {
        after_slash(p.drop_last()).push(p.last())
    }
}

fn after_slash_exec(p: &Vec<char>, end: usize) -> (r: Vec<char>)
    requires
        end <= p@.len(),
    ensures
        r@ == after_slash(p@.take(end as int)),
{
    let mut start: usize = end;
    while start > 0 && p[start - 1] != '/'
        invariant
            start <= end <= p@.len(),
            after_slash(p@.take(end as int)) == after_slash(p@.take(start as int)) + p@.subrange(start as int, end as int),
        decreases start,
    {
        let ghost t = p@.take(start as int);
        assert(t.drop_last() =~= p@.take(start - 1));
        assert(p@.subrange(start - 1, end as int) =~= seq![p@[start - 1]] + p@.subrange(start as int, end as int));
        assert(after_slash(t) == after_slash(t.drop_last()).push(p@[start - 1]));
        start = start - 1;
    }
    if start > 0 {
        assert(p@.take(start as int).last() == '/');
    }
    let mut out: Vec<char> = Vec::new();
    let mut i: usize = start;
    while i < end
        invariant
            start <= i <= end <= p@.len(),
            out@ == p@.subrange(start as int, i as int),
        decreases end - i,
    {
        out.push(p[i]);
        assert(p@.subrange(start as int, i + 1) =~= p@.subrange(start as int, i as int).push(p@[i as int]));
        i = i + 1;
    }
    assert(out@ =~= after_slash(p@.take(end as int)));
    out
}

proof fn lemma_after_slash_len(p: Seq<char>)
    ensures
        after_slash(p).len() <= p.len(),
        p.len() > 0 && p.last() != '/' ==> after_slash(p).len() >= 1,
    decreases p.len(),
{
    if p.len() > 0 && p.last() != '/' {
        lemma_after_slash_len(p.drop_last());
    }
}

fn basename(p: &Vec<char>) -> (r: Vec<char>)
    ensures
        r@ == last_part(p@),
{
    let mut end: usize = p.len();
    assert(p@.take(end as int) =~= p@);
    loop
        invariant
            end <= p@.len(),
            last_part(p@) == last_part(p@.take(end as int)),
        decreases end,
    {
        if end == 0 {
            return Vec::new();
        }
        let ghost t = p@.take(end as int);
        if p[end - 1] == '/' {
            assert(t.drop_last() =~= p@.take(end - 1));
            end = end - 1;
        } else {
            let part = after_slash_exec(p, end);
            proof {
                lemma_after_slash_len(t);
            }
            if part.len() == 1 && part[0] == '.' {
                assert(part@ =~= seq!['.']);
                assert(t.subrange(0, t.len() - 1) =~= p@.take(end - 1));
                end = end - 1;
            } else if part.len() == 2 && part[0] == '.' && part[1] == '.' {
                assert(part@ =~= seq!['.', '.']);
                return Vec::new();
            } else {
                proof {
                    if part@ == seq!['.'] {
                        assert(part@.len() == 1);
                    }
                    if part@ == seq!['.', '.'] {
                        assert(part@.len() == 2);
                    }
                }
                return part;
            }
        }
    }
}

/// Whether `s` starts with `p`.
pub open spec fn starts_with(s: Seq<char>, p: Seq<char>) -> bool {
    p.len() <= s.len() && s.subrange(0, p.len() as int) == p
}

/// Whether a pattern `prefix/**` names this directory or one under it.
pub open spec fn double_star_dir(pattern: Seq<char>, rel: Seq<char>, is_dir: bool) -> bool {
    let suffix = seq!['/', '*', '*'];
    if !is_dir {
        false
    } else if pattern.len() >= 3 && pattern.subrange(pattern.len() - 3, pattern.len() as int) == suffix {
        let prefix = pattern.subrange(0, pattern.len() - 3);
        rel == prefix || starts_with(rel, prefix.push('/')) || glob_matches(prefix, rel)
    } else {
        false
    }
}

/// Whether a path is left out: some pattern names it as a `dir/**`
/// directory, or matches the path, or matches its last component.
pub open spec fn excluded(patterns: Seq<Seq<char>>, rel: Seq<char>, is_dir: bool) -> bool {
    let p = normalized(rel);
    exists|i: int|
        0 <= i < patterns.len() && (double_star_dir(#[trigger] patterns[i], p, is_dir) || glob_matches(
            patterns[i],
            p,
        ) || glob_matches(patterns[i], last_part(p)))
}

fn double_star(pattern: &str, rel: &Vec<char>, rel_text: &str, is_dir: bool) -> (r: bool)
    requires
        rel@ == rel_text@,
    ensures
        r == double_star_dir(pattern@, rel@, is_dir),
{
    if !is_dir {
        return false;
    }
    let pc = chars_of(pattern);
    let n = pc.len();
    if n < 3 || pc[n - 3] != '/' || pc[n - 2] != '*' || pc[n - 1] != '*' {
        proof {
            if n >= 3 {
                let s = pc@.subrange(n - 3, n as int);
                if s == seq!['/', '*', '*'] {
                    assert(s[0] == '/' && s[1] == '*' && s[2] == '*');
                }
            }
        }
        return false;
    }
    assert(pc@.subrange(n - 3, n as int) =~= seq!['/', '*', '*']);
    let mut prefix: Vec<char> = Vec::new();
    let mut i: usize = 0;
    while i < n - 3
        invariant
            n == pc@.len(),
            3 <= n,
            i <= n - 3,
            prefix@ == pc@.subrange(0, i as int),
        decreases n - 3 - i,
    {
        prefix.push(pc[i]);
        assert(pc@.subrange(0, i + 1) =~= pc@.subrange(0, i as int).push(pc@[i as int]));
        i = i + 1;
    }
    let ghost pre = prefix@;
    if crate::text::chars_eq(rel.as_slice(), prefix.as_slice()) {
        return true;
    }
    prefix.push('/');
    if crate::text::chars_start_with(rel.as_slice(), prefix.as_slice()) {
        return true;
    }
    let ps = string_from_chars(vstd::slice::slice_subrange(prefix.as_slice(), 0, n - 3));
    assert(ps@ =~= pre);
    glob_match(ps.as_str(), rel_text)
}

impl Options {
    /// Whether a path is left out, given what the caller's own exclusion
    /// function answered for it (`None` where there is none): the patterns
    /// are asked first, then the function.
    pub fn should_exclude_with(&self, rel_path: &str, is_dir: bool, exclude_fn_answer: Option<bool>) -> (r: bool)
        ensures
            r == (excluded(strings_view(self.exclude_patterns@), rel_path@, is_dir) || exclude_fn_answer == Some(true)),
    {
        if self.should_exclude(rel_path, is_dir) {
            return true;
        }
        match exclude_fn_answer {
            Some(b) => b,
            None => false,
        }
    }

    /// Whether a path (relative to the captured root) is left out.
    pub fn should_exclude(&self, rel_path: &str, is_dir: bool) -> (r: bool)
        ensures
            r == excluded(strings_view(self.exclude_patterns@), rel_path@, is_dir),
    {
        let rel = normalize_path(rel_path);
        let rel_text = string_from_chars(rel.as_slice());
        let base = basename(&rel);
        let base_text = string_from_chars(base.as_slice());
        let ghost pats = strings_view(self.exclude_patterns@);
        let mut i: usize = 0;
        while i < self.exclude_patterns.len()
            invariant
                i <= self.exclude_patterns@.len(),
                pats == strings_view(self.exclude_patterns@),
                rel@ == normalized(rel_path@),
                rel_text@ == rel@,
                base_text@ == last_part(rel@),
                forall|j: int|
                    0 <= j < i ==> !(double_star_dir(#[trigger] pats[j], rel@, is_dir) || glob_matches(pats[j], rel@)
                        || glob_matches(pats[j], last_part(rel@))),
            decreases self.exclude_patterns@.len() - i,
        {
            let pat = self.exclude_patterns[i].as_str();
            assert(pats[i as int] == pat@);
            if double_star(pat, &rel, rel_text.as_str(), is_dir) {
                return true;
            }
            if glob_match(pat, rel_text.as_str()) {
                return true;
            }
            if glob_match(pat, base_text.as_str()) {
                return true;
            }
            i = i + 1;
        }
        false
    }
}

} // verus!
