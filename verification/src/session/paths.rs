//! Paths of repositories: telling them apart, and where a clone goes.

use vstd::prelude::*;

use crate::strings::{
    ascii_lowered, decimal, ends_with, find_from, is_blank, lemma_trimmed_is_kept, lowercase,
    position_from, str_eq, to_lowercase, trim,
    trim_end, trim_end_at, trim_end_of, trim_start, trimmed, usize_to_string, cat2, views,
};
use crate::text::{char_is_control, from_chars, is_boundary, is_control, is_whitespace, on_boundary, split_at, split_index, to_chars};

verus! {

/// The key of a repository: its path, with no difference between large and small letters. The
/// path is the one that the file system gives for it.
pub fn path_key(resolved: &str) -> (r: String)
    ensures
        r@ == lowercase(resolved@),
        (forall|i: int| 0 <= i < resolved@.len() ==> (#[trigger] resolved@[i]) as u32 <= 0x7f)
            ==> r@ == ascii_lowered(resolved@),
{
    to_lowercase(resolved)
}

/// The keys of some paths.
pub open spec fn keys_of(resolved: Seq<Seq<char>>) -> Seq<Seq<char>> {
    resolved.map_values(|s: Seq<char>| lowercase(s))
}

/// Whether no key before place `i` is the one at `i`.
pub open spec fn is_first(keys: Seq<Seq<char>>, i: int) -> bool {
    !keys.take(i).contains(keys[i])
}

/// The places of the first `n` paths whose key did not come before.
pub open spec fn first_places(keys: Seq<Seq<char>>, n: int) -> Seq<int>
    decreases n,
{
    if n <= 0 {
        Seq::empty()
    } else {
        let head = first_places(keys, n - 1);
        if is_first(keys, n - 1) {
            head.push(n - 1)
        } else {
            head
        }
    }
}

/// What stands at some places.
pub open spec fn at_places(paths: Seq<Seq<char>>, places: Seq<int>) -> Seq<Seq<char>> {
    places.map_values(|i: int| paths[i])
}

/// The paths that are kept stand for repositories that are all different.
pub proof fn lemma_deduped_keys_differ(keys: Seq<Seq<char>>, n: int, a: int, b: int)
    requires
        0 <= n <= keys.len(),
        0 <= a < b < first_places(keys, n).len(),
    ensures
        first_places(keys, n)[a] < first_places(keys, n)[b] < n,
        keys[first_places(keys, n)[a]] != keys[first_places(keys, n)[b]],
    decreases n,
{
    let head = first_places(keys, n - 1);
    if b < head.len() {
        lemma_deduped_keys_differ(keys, n - 1, a, b);
    } else {
        lemma_places_in_range(keys, n - 1, a);
        assert(keys.take(n - 1)[head[a]] == keys[head[a]]);
    }
}

proof fn lemma_places_in_range(keys: Seq<Seq<char>>, n: int, a: int)
    requires
        0 <= n,
        0 <= a < first_places(keys, n).len(),
    ensures
        0 <= first_places(keys, n)[a] < n,
    decreases n,
{
    let head = first_places(keys, n - 1);
    if a < head.len() {
        lemma_places_in_range(keys, n - 1, a);
    }
}

/// Every repository is kept: its first path is.
pub proof fn lemma_deduped_keys_cover(keys: Seq<Seq<char>>, n: int, i: int) -> (a: int)
    requires
        0 <= i < n <= keys.len(),
    ensures
        0 <= a < first_places(keys, n).len(),
        keys[first_places(keys, n)[a]] == keys[i],
        first_places(keys, n)[a] <= i,
    decreases n, i,
{
    if i < n - 1 {
        lemma_deduped_keys_cover(keys, n - 1, i)
    } else if is_first(keys, i) {
        first_places(keys, n).len() - 1
    } else {
        let j = choose|j: int| 0 <= j < i && keys.take(i)[j] == keys[i];
        lemma_deduped_keys_cover(keys, n - 1, j)
    }
}

fn is_first_key(keys: &Vec<String>, i: usize) -> (r: bool)
    requires
        i < keys@.len(),
    ensures
        r == is_first(views(keys@), i as int),
{
    let mut j: usize = 0;
    while j < i
        invariant
            j <= i < keys@.len(),
            forall|k: int| 0 <= k < j ==> (#[trigger] keys@[k])@ != keys@[i as int]@,
        decreases i - j,
    {
        if str_eq(keys[j].as_str(), keys[i].as_str()) {
            proof {
                let head = views(keys@).take(i as int);
                assert(head[j as int] == views(keys@)[i as int]);
            }
            return false;
        }
        j = j + 1;
    }
    proof {
        let head = views(keys@).take(i as int);
        if head.contains(views(keys@)[i as int]) {
            let k = choose|k: int| 0 <= k < head.len() && head[k] == views(keys@)[i as int];
            assert(keys@[k]@ == keys@[i as int]@);
        }
    }
    true
}

fn path_keys(resolved: &Vec<String>) -> (r: Vec<String>)
    ensures
        views(r@) == keys_of(views(resolved@)),
{
    let mut r: Vec<String> = Vec::new();
    let mut i: usize = 0;
    while i < resolved.len()
        invariant
            i <= resolved@.len(),
            r@.len() == i,
            forall|k: int| 0 <= k < i ==> (#[trigger] r@[k])@ == lowercase(resolved@[k]@),
        decreases resolved@.len() - i,
    {
        r.push(path_key(resolved[i].as_str()));
        i = i + 1;
    }
    assert(views(r@) =~= keys_of(views(resolved@)));
    r
}

/// The paths without those that stand for a repository that came before. `resolved` holds what
/// the file system gives for each.
pub fn dedupe_repo_paths(paths: &Vec<String>, resolved: &Vec<String>) -> (r: Vec<String>)
    requires
        paths@.len() == resolved@.len(),
    ensures
        views(r@) == at_places(
            views(paths@),
            first_places(keys_of(views(resolved@)), paths@.len() as int),
        ),
{
    let keys: Vec<String> = path_keys(resolved);
    let ghost k = keys_of(views(resolved@));
    assert(views(keys@).len() == k.len());
    let mut r: Vec<String> = Vec::new();
    let mut i: usize = 0;
    assert(views(r@) =~= at_places(views(paths@), first_places(k, 0)));
    while i < paths.len()
        invariant
            i <= paths@.len(),
            paths@.len() == resolved@.len(),
            keys@.len() == paths@.len(),
            k == keys_of(views(resolved@)),
            views(keys@) == k,
            views(r@) == at_places(views(paths@), first_places(k, i as int)),
        decreases paths@.len() - i,
    {
        let ghost before = views(r@);
        if is_first_key(&keys, i) {
            r.push(paths[i].clone());
            assert(views(r@) =~= before.push(paths@[i as int]@));
            assert(at_places(views(paths@), first_places(k, i + 1)) =~= before.push(
                views(paths@)[i as int],
            ));
        }
        i = i + 1;
    }
    r
}

/// What is left of the repositories that were open.
#[derive(Debug, PartialEq, Eq)]
pub struct RestorePlan {
    /// The places of those that can be opened.
    pub restored: Vec<usize>,
    /// How many cannot.
    pub failed: usize,
}

/// The places of the first `n` repositories that can be opened, each once.
pub open spec fn usable_places(keys: Seq<Seq<char>>, usable: Seq<bool>, n: int) -> Seq<usize>
    decreases n,
{
    if n <= 0 {
        Seq::empty()
    } else {
        let head = usable_places(keys, usable, n - 1);
        if is_first(keys, n - 1) && usable[n - 1] {
            head.push((n - 1) as usize)
        } else {
            head
        }
    }
}

/// How many of the first `n` repositories cannot be opened, each counted once.
pub open spec fn lost(keys: Seq<Seq<char>>, usable: Seq<bool>, n: int) -> nat
    decreases n,
{
    if n <= 0 {
        0
    } else {
        lost(keys, usable, n - 1) + if is_first(keys, n - 1) && !usable[n - 1] {
            1nat
        } else {
            0
        }
    }
}

/// Which of the repositories that were open are opened again. `usable` says which can be.
pub fn restore_plan(resolved: &Vec<String>, usable: &Vec<bool>) -> (r: RestorePlan)
    requires
        resolved@.len() == usable@.len(),
    ensures
        r.restored@ == usable_places(
            keys_of(views(resolved@)),
            usable@,
            resolved@.len() as int,
        ),
        r.failed == lost(keys_of(views(resolved@)), usable@, resolved@.len() as int),
{
    let keys: Vec<String> = path_keys(resolved);
    let ghost k = keys_of(views(resolved@));
    assert(views(keys@).len() == k.len());
    let mut restored: Vec<usize> = Vec::new();
    let mut failed: usize = 0;
    let mut i: usize = 0;
    while i < resolved.len()
        invariant
            i <= resolved@.len(),
            resolved@.len() == usable@.len(),
            keys@.len() == resolved@.len(),
            k == keys_of(views(resolved@)),
            views(keys@) == k,
            restored@ == usable_places(k, usable@, i as int),
            failed == lost(k, usable@, i as int),
            failed <= i,
        decreases resolved@.len() - i,
    {
        if is_first_key(&keys, i) {
            if usable[i] {
                restored.push(i);
            } else {
                failed = failed + 1;
            }
        }
        i = i + 1;
    }
    RestorePlan { restored, failed }
}

/// What is said when some repositories cannot be opened again.
pub fn restore_failure(failed: usize) -> (r: String)
    ensures
        r@ == decimal(failed as nat) + " 个上次打开的仓库无法恢复"@,
{
    let n: String = usize_to_string(failed);
    cat2(n.as_str(), " 个上次打开的仓库无法恢复")
}

// ---------------------------------------------------------------------------
// Where a clone goes
// ---------------------------------------------------------------------------
/// An address without what comes after `#` and `?`, and without slashes at its end.
pub open spec fn bare_address(url: Seq<char>) -> Seq<char> {
    let t = trim_end_of(trimmed(url), '/');
    let f = t.take(position_from(t, '#', 0));
    trim_end_of(f.take(position_from(f, '?', 0)), '/')
}

/// The first `://` from `from` on, or the length.
pub open spec fn scheme_end(s: Seq<char>, from: int) -> int
    decreases s.len() - from,
{
    if from < 0 || from + 2 >= s.len() {
        s.len() as int
    } else if s[from] == ':' && s[from + 1] == '/' && s[from + 2] == '/' {
        from
    } else {
        scheme_end(s, from + 1)
    }
}

/// The part of an address that names the repository on its server. An address with a scheme and
/// no path has none.
pub open spec fn address_path(s: Seq<char>) -> Option<Seq<char>> {
    let at = scheme_end(s, 0);
    if at >= s.len() {
        Some(s)
    } else {
        let slash = position_from(s, '/', at + 3);
        if slash >= s.len() {
            None
        } else {
            Some(s.skip(slash + 1))
        }
    }
}

/// Where the segment that ends at `end` starts: after the last `/` or `:` before.
pub open spec fn segment_start(s: Seq<char>, end: int) -> int
    decreases end,
{
    if end <= 0 || end > s.len() {
        0
    } else if s[end - 1] == '/' || s[end - 1] == ':' {
        end
    } else {
        segment_start(s, end - 1)
    }
}

proof fn lemma_segment_start(s: Seq<char>, end: int)
    requires
        0 <= end <= s.len(),
    ensures
        0 <= segment_start(s, end) <= end,
    decreases end,
{
    if end > 0 && s[end - 1] != '/' && s[end - 1] != ':' {
        lemma_segment_start(s, end - 1);
    }
}

/// The last segment up to `end` that is not blank.
pub open spec fn last_segment(s: Seq<char>, end: int) -> Option<Seq<char>>
    decreases end,
{
    let start = segment_start(s, end);
    if end < 0 || end > s.len() {
        None
    } else if trimmed(s.subrange(start, end)).len() > 0 {
        Some(s.subrange(start, end))
    } else if start <= 0 || start > end {
        None
    } else {
        last_segment(s, start - 1)
    }
}

pub open spec fn without_git(s: Seq<char>) -> Seq<char> {
    if ".git"@.is_suffix_of(s) {
        s.take(s.len() - ".git"@.len())
    } else {
        s
    }
}

/// Whether a file system may refuse a directory for the character.
pub open spec fn is_unfit_char(c: char) -> bool {
    c == '<' || c == '>' || c == '"' || c == '|' || c == '?' || c == '*' || c == '\\' || is_control(c)
}

pub open spec fn is_unfit_name(name: Seq<char>) -> bool {
    ||| name.len() == 0
    ||| name == "."@
    ||| name == ".."@
    ||| exists|i: int| 0 <= i < name.len() && is_unfit_char(#[trigger] name[i])
}

/// The directory that a clone of `url` gets.
pub open spec fn clone_directory(url: Seq<char>) -> Option<Seq<char>> {
    match address_path(bare_address(url)) {
        None => None,
        Some(path) => match last_segment(path, path.len() as int) {
            None => None,
            Some(segment) => {
                let name = trimmed(without_git(segment));
                if is_unfit_name(name) {
                    None
                } else {
                    Some(name)
                }
            },
        },
    }
}

/// A directory name that is found has no separator in it.
pub proof fn lemma_clone_directory_is_one_name(url: Seq<char>)
    requires
        clone_directory(url) is Some,
    ensures
        clone_directory(url)->0.len() > 0,
        clone_directory(url)->0 != "."@,
        clone_directory(url)->0 != ".."@,
        forall|i: int|
            0 <= i < clone_directory(url)->0.len() ==> (#[trigger] clone_directory(url)->0[i]) != '/',
{
    let path = address_path(bare_address(url))->0;
    let end = path.len() as int;
    lemma_last_segment(path, end);
    let segment = last_segment(path, end)->0;
    let base = without_git(segment);
    assert forall|i: int| 0 <= i < base.len() implies #[trigger] base[i] != '/' by {
        assert(base[i] == segment[i]);
    }
    lemma_trim_keeps(base, '/');
}

proof fn lemma_last_segment(s: Seq<char>, end: int)
    requires
        0 <= end <= s.len(),
        last_segment(s, end) is Some,
    ensures
        forall|i: int| 0 <= i < last_segment(s, end)->0.len() ==> (#[trigger] last_segment(s, end)->0[i]) != '/',
    decreases end,
{
    lemma_segment_start(s, end);
    let start = segment_start(s, end);
    if trimmed(s.subrange(start, end)).len() > 0 {
        lemma_segment_has_no_slash(s, end);
        assert forall|i: int| 0 <= i < s.subrange(start, end).len() implies #[trigger] s.subrange(
            start,
            end,
        )[i] != '/' by {
            assert(s.subrange(start, end)[i] == s[start + i]);
        }
    } else {
        lemma_last_segment(s, start - 1);
    }
}

proof fn lemma_segment_has_no_slash(s: Seq<char>, end: int)
    requires
        0 <= end <= s.len(),
    ensures
        forall|i: int| segment_start(s, end) <= i < end ==> #[trigger] s[i] != '/',
    decreases end,
{
    if end > 0 && s[end - 1] != '/' && s[end - 1] != ':' {
        lemma_segment_has_no_slash(s, end - 1);
    }
}

/// Trimming brings in no character.
proof fn lemma_trim_keeps(s: Seq<char>, c: char)
    requires
        forall|i: int| 0 <= i < s.len() ==> #[trigger] s[i] != c,
    ensures
        forall|i: int| 0 <= i < trimmed(s).len() ==> (#[trigger] trimmed(s)[i]) != c,
{
    lemma_trim_start_keeps(s, c);
    lemma_trim_end_keeps(trim_start(s), c);
}

proof fn lemma_trim_start_keeps(s: Seq<char>, c: char)
    requires
        forall|i: int| 0 <= i < s.len() ==> #[trigger] s[i] != c,
    ensures
        forall|i: int| 0 <= i < trim_start(s).len() ==> (#[trigger] trim_start(s)[i]) != c,
    decreases s.len(),
{
    if s.len() > 0 && crate::text::is_whitespace(s[0]) {
        let t = s.drop_first();
        assert forall|i: int| 0 <= i < t.len() implies #[trigger] t[i] != c by {
            assert(t[i] == s[i + 1]);
        }
        lemma_trim_start_keeps(t, c);
        assert(trim_start(s) == trim_start(t));
    } else {
        assert(trim_start(s) == s);
    }
}

proof fn lemma_trim_end_keeps(s: Seq<char>, c: char)
    requires
        forall|i: int| 0 <= i < s.len() ==> #[trigger] s[i] != c,
    ensures
        forall|i: int| 0 <= i < trim_end(s).len() ==> (#[trigger] trim_end(s)[i]) != c,
    decreases s.len(),
{
    if s.len() > 0 && crate::text::is_whitespace(s.last()) {
        let t = s.drop_last();
        assert forall|i: int| 0 <= i < t.len() implies #[trigger] t[i] != c by {
            assert(t[i] == s[i]);
        }
        lemma_trim_end_keeps(t, c);
        assert(trim_end(s) == trim_end(t));
    } else {
        assert(trim_end(s) == s);
    }
}

fn find_scheme(s: &Vec<char>) -> (r: usize)
    ensures
        r == scheme_end(s@, 0),
        r <= s@.len(),
        r < s@.len() ==> r + 3 <= s@.len(),
{
    let mut i: usize = 0;
    while s.len() >= 3 && i < s.len() - 2
        invariant
            i <= s@.len(),
            scheme_end(s@, 0) == scheme_end(s@, i as int),
        decreases s@.len() - i,
    {
        if s[i] == ':' && s[i + 1] == '/' && s[i + 2] == '/' {
            return i;
        }
        i = i + 1;
    }
    s.len()
}

fn find_segment(s: &Vec<char>, end: usize) -> (r: usize)
    requires
        end <= s@.len(),
    ensures
        r == segment_start(s@, end as int),
        r <= end,
{
    let mut i: usize = end;
    while i > 0
        invariant
            i <= end <= s@.len(),
            segment_start(s@, end as int) == segment_start(s@, i as int),
        decreases i,
    {
        if s[i - 1] == '/' || s[i - 1] == ':' {
            return i;
        }
        i = i - 1;
    }
    i
}

fn find_last_segment(s: &Vec<char>) -> (r: Option<String>)
    ensures
        crate::strings::opt_view(r) == last_segment(s@, s@.len() as int),
{
    let mut end: usize = s.len();
    loop
        invariant
            end <= s@.len(),
            last_segment(s@, s@.len() as int) == last_segment(s@, end as int),
        decreases end,
    {
        let start: usize = find_segment(s, end);
        let segment: String = from_chars(s, start, end);
        if !is_blank(segment.as_str()) {
            return Some(segment);
        }
        if start == 0 {
            return None;
        }
        end = start - 1;
    }
}

fn is_unfit(name: &str) -> (r: bool)
    ensures
        r == is_unfit_name(name@),
{
    let chars: Vec<char> = to_chars(name);
    if chars.len() == 0 || str_eq(name, ".") || str_eq(name, "..") {
        return true;
    }
    let mut i: usize = 0;
    while i < chars.len()
        invariant
            i <= chars@.len(),
            chars@ == name@,
            forall|k: int| 0 <= k < i ==> !is_unfit_char(#[trigger] chars@[k]),
        decreases chars@.len() - i,
    {
        let c: char = chars[i];
        if c == '<' || c == '>' || c == '"' || c == '|' || c == '?' || c == '*' || c == '\\'
            || char_is_control(c) {
            assert(is_unfit_char(name@[i as int]));
            return true;
        }
        i = i + 1;
    }
    false
}

/// The directory that a clone of `url` gets, if the address tells.
pub fn infer_clone_directory_name(url: &str) -> (r: Option<String>)
    ensures
        crate::strings::opt_view(r) == clone_directory(url@),
{
    let bare: String = trim(url);
    let chars: Vec<char> = to_chars(bare.as_str());
    let end: usize = trim_end_at(&chars, 0, chars.len(), '/');
    assert(chars@.subrange(0, chars@.len() as int) =~= chars@);
    let without_slash: String = from_chars(&chars, 0, end);
    let t: Vec<char> = to_chars(without_slash.as_str());
    let hash: usize = find_from(&t, '#', 0);
    let without_fragment: String = from_chars(&t, 0, hash);
    assert(without_fragment@ =~= t@.take(hash as int));
    let f: Vec<char> = to_chars(without_fragment.as_str());
    let mark: usize = find_from(&f, '?', 0);
    let stop: usize = trim_end_at(&f, 0, mark, '/');
    assert(f@.subrange(0, mark as int) =~= f@.take(mark as int));
    let address: String = from_chars(&f, 0, stop);
    assert(address@ =~= bare_address(url@));
    let a: Vec<char> = to_chars(address.as_str());
    let at: usize = find_scheme(&a);
    let path: Vec<char> = if at < a.len() {
        let slash: usize = find_from(&a, '/', at + 3);
        if slash >= a.len() {
            return None;
        }
        let rest: String = from_chars(&a, slash + 1, a.len());
        assert(rest@ =~= a@.skip(slash + 1));
        to_chars(rest.as_str())
    } else {
        a
    };
    let segment: String = match find_last_segment(&path) {
        Some(segment) => segment,
        None => {
            return None;
        },
    };
    let base: String = if ends_with(segment.as_str(), ".git") {
        let s: Vec<char> = to_chars(segment.as_str());
        let suffix: Vec<char> = to_chars(".git");
        let cut: String = from_chars(&s, 0, s.len() - suffix.len());
        assert(cut@ =~= segment@.take(segment@.len() - ".git"@.len()));
        cut
    } else {
        segment
    };
    let name: String = trim(base.as_str());
    if is_unfit(name.as_str()) {
        None
    } else {
        Some(name)
    }
}

/// Where a clone goes: the directory that holds it, and its own name.
#[derive(Debug, PartialEq, Eq)]
pub struct CloneTarget {
    pub parent: String,
    pub name: String,
}

/// Where a clone of `url` into `parent` goes, if that can be told.
pub fn infer_clone_target_path(url: &str, parent: &str) -> (r: Option<CloneTarget>)
    ensures
        match clone_directory(url@) {
            Some(name) => if trimmed(parent@).len() == 0 {
                r is None
            } else {
                r matches Some(target) && target.parent@ == trimmed(parent@) && target.name@
                    == name
            },
            None => r is None,
        },
{
    if is_blank(parent) {
        return None;
    }
    match infer_clone_directory_name(url) {
        Some(name) => Some(CloneTarget { parent: trim(parent), name }),
        None => None,
    }
}

/// What a clone needs: the address, and where it goes; or what is missing.
pub fn clone_request(url: &str, parent: &str) -> (r: Result<CloneTarget, &'static str>)
    ensures
        if trimmed(url@).len() == 0 || trimmed(parent@).len() == 0 {
            r matches Err(m) && m@ == "需要填写远程仓库 URL 和克隆到父文件夹"@
        } else {
            match clone_directory(trimmed(url@)) {
                None => r matches Err(m) && m@ == "无法从远程仓库 URL 推导仓库文件夹名"@,
                Some(name) => r matches Ok(target) && target.parent@ == trimmed(parent@)
                    && target.name@ == name,
            }
        },
{
    if is_blank(url) || is_blank(parent) {
        return Err("需要填写远程仓库 URL 和克隆到父文件夹");
    }
    let bare: String = trim(url);
    match infer_clone_target_path(bare.as_str(), parent) {
        Some(target) => Ok(target),
        None => Err("无法从远程仓库 URL 推导仓库文件夹名"),
    }
}

/// The first characters of an object id.
pub fn short_oid(oid: &str) -> (r: String)
    ensures
        r@ == if on_boundary(oid@, 8) {
            oid@.take(split_index(oid@, 8))
        } else {
            oid@
        },
{
    if is_boundary(oid, 8) {
        let (head, _rest) = split_at(oid, 8);
        head.to_string()
    } else {
        oid.to_string()
    }
}

// ---------------------------------------------------------------------------
// Laws of paths and addresses
// ---------------------------------------------------------------------------
/// The repositories that are opened again are those that can be, each once and in their order; the
/// ones that cannot are counted, each once.
pub proof fn lemma_restored_places(keys: Seq<Seq<char>>, usable: Seq<bool>, n: int)
    requires
        0 <= n <= keys.len() <= usize::MAX,
        usable.len() == keys.len(),
    ensures
        ({
            let places = usable_places(keys, usable, n);
            &&& forall|a: int, b: int|
                0 <= a < b < places.len() ==> (#[trigger] places[a]) < (#[trigger] places[b])
            &&& forall|a: int|
                0 <= a < places.len() ==> (#[trigger] places[a]) < n && usable[places[a] as int]
                    && is_first(keys, places[a] as int)
            &&& forall|i: int|
                0 <= i < n && usable[i] && #[trigger] is_first(keys, i) ==> places.contains(
                    i as usize,
                )
            &&& places.len() + lost(keys, usable, n) == first_places(keys, n).len()
        }),
    decreases n,
{
    if n > 0 {
        lemma_restored_places(keys, usable, n - 1);
        let head = usable_places(keys, usable, n - 1);
        let places = usable_places(keys, usable, n);
        assert forall|i: int| 0 <= i < n && usable[i] && #[trigger] is_first(keys, i) implies places.contains(
            i as usize,
        ) by {
            if i < n - 1 {
                assert(head.contains(i as usize));
                let k = choose|k: int| 0 <= k < head.len() && head[k] == i as usize;
                assert(places[k] == i as usize);
            } else {
                assert(places[head.len() as int] == i as usize);
            }
        }
    }
}

/// A key is the first of its kind if no key before it is the same.
pub proof fn lemma_first_keys(keys: Seq<Seq<char>>, i: int)
    requires
        0 <= i < keys.len(),
    ensures
        is_first(keys, i) <==> forall|j: int| 0 <= j < i ==> #[trigger] keys[j] != keys[i],
{
    let before = keys.take(i);
    if is_first(keys, i) {
        assert forall|j: int| 0 <= j < i implies #[trigger] keys[j] != keys[i] by {
            assert(before[j] == keys[j]);
            assert(before.contains(before[j]));
        }
    }
    if forall|j: int| 0 <= j < i ==> #[trigger] keys[j] != keys[i] {
        if before.contains(keys[i]) {
            let j = choose|j: int| 0 <= j < before.len() && before[j] == keys[i];
            assert(keys[j] == keys[i]);
        }
    }
}

/// Whether a text is a name that a folder can have and that an address can end in.
pub open spec fn is_plain_name(name: Seq<char>) -> bool {
    &&& name.len() > 0
    &&& name != "."@
    &&& name != ".."@
    &&& !".git"@.is_suffix_of(name)
    &&& !is_whitespace(name[0])
    &&& !is_whitespace(name.last())
    &&& forall|i: int|
        0 <= i < name.len() ==> !is_unfit_char(#[trigger] name[i]) && name[i] != '/' && name[i]
            != ':' && name[i] != '#'
}

/// Whether a text is what can stand in an address before the name: it holds no question mark, no
/// number sign and no scheme, does not start with a blank, and ends with a slash or a colon.
pub open spec fn is_way(way: Seq<char>) -> bool {
    &&& forall|i: int| 0 <= i < way.len() ==> #[trigger] way[i] != '#' && way[i] != '?'
    &&& forall|i: int|
        0 <= i < way.len() - 1 ==> !(#[trigger] way[i] == '/' && way[i + 1] == '/')
    &&& way.len() > 0 ==> !is_whitespace(way[0]) && way[0] != '/' && (way.last() == '/' || way.last()
        == ':')
}

proof fn lemma_no_place(s: Seq<char>, c: char, from: int)
    requires
        0 <= from <= s.len(),
        forall|i: int| from <= i < s.len() ==> #[trigger] s[i] != c,
    ensures
        position_from(s, c, from) == s.len(),
    decreases s.len() - from,
{
    if from < s.len() {
        assert(s[from] != c);
        lemma_no_place(s, c, from + 1);
    }
}

proof fn lemma_no_scheme(s: Seq<char>, from: int)
    requires
        0 <= from <= s.len(),
        forall|i: int| 0 <= i < s.len() - 1 ==> !(#[trigger] s[i] == '/' && s[i + 1] == '/'),
    ensures
        scheme_end(s, from) == s.len(),
    decreases s.len() - from,
{
    if from + 2 < s.len() {
        assert(!(s[from + 1] == '/' && s[from + 2] == '/'));
        lemma_no_scheme(s, from + 1);
    }
}

proof fn lemma_scheme(s: Seq<char>, from: int, at: int)
    requires
        0 <= from <= at,
        at + 2 < s.len(),
        s[at] == ':',
        s[at + 1] == '/',
        s[at + 2] == '/',
        forall|i: int| from <= i < at ==> #[trigger] s[i] != ':',
    ensures
        scheme_end(s, from) == at,
    decreases at - from,
{
    if from < at {
        assert(s[from] != ':');
        lemma_scheme(s, from + 1, at);
    }
}

proof fn lemma_slash(s: Seq<char>, from: int, at: int)
    requires
        0 <= from <= at < s.len(),
        s[at] == '/',
        forall|i: int| from <= i < at ==> #[trigger] s[i] != '/',
    ensures
        position_from(s, '/', from) == at,
    decreases at - from,
{
    if from < at {
        assert(s[from] != '/');
        lemma_slash(s, from + 1, at);
    }
}

proof fn lemma_segment_is(s: Seq<char>, start: int, end: int)
    requires
        0 <= start <= end <= s.len(),
        start > 0 ==> s[start - 1] == '/' || s[start - 1] == ':',
        forall|i: int| start <= i < end ==> #[trigger] s[i] != '/' && s[i] != ':',
    ensures
        segment_start(s, end) == start,
    decreases end,
{
    if start < end {
        assert(s[end - 1] != '/');
        lemma_segment_is(s, start, end - 1);
    }
}

/// Cutting the slashes off the end of a text that does not end with one, or with one, gives the text
/// without it.
proof fn lemma_end_slash(s: Seq<char>)
    requires
        s.len() > 0,
        s.last() != '/',
    ensures
        trim_end_of(s, '/') == s,
        trim_end_of(s.push('/'), '/') == s,
{
    reveal_with_fuel(trim_end_of, 2);
    assert(s.push('/').drop_last() =~= s);
}

/// The part of an address that its repository is called by: with `.git` at its end or without, and
/// with a slash behind it or without.
pub open spec fn name_ending(git: bool, slash: bool) -> Seq<char> {
    (if git {
        ".git"@
    } else {
        Seq::empty()
    }) + (if slash {
        "/"@
    } else {
        Seq::empty()
    })
}

/// A clone goes into a folder that is called like the last part of the address, without `.git` and
/// without the slash behind it: for an address with a scheme and a host, and for one without.
pub proof fn lemma_clone_directory(
    scheme: Seq<char>,
    host: Seq<char>,
    way: Seq<char>,
    name: Seq<char>,
    git: bool,
    slash: bool,
)
    requires
        is_way(way),
        way.len() > 0 ==> way.last() == '/',
        is_plain_name(name),
        scheme.len() > 0,
        !is_whitespace(scheme[0]),
        forall|i: int|
            0 <= i < scheme.len() ==> #[trigger] scheme[i] != ':' && scheme[i] != '#' && scheme[i]
                != '?',
        forall|i: int|
            0 <= i < host.len() ==> #[trigger] host[i] != '/' && host[i] != '#' && host[i] != '?',
    ensures
        clone_directory(scheme + "://"@ + host + "/"@ + way + name + name_ending(git, slash))
            == Some(name),
{
    reveal_strlit("://");
    reveal_strlit("/");
    reveal_strlit(".git");
    let body = name + name_ending(git, false);
    let front = scheme + "://"@ + host + "/"@;
    let bare = front + way + body;
    let url = scheme + "://"@ + host + "/"@ + way + name + name_ending(git, slash);
    assert(url =~= if slash {
        bare.push('/')
    } else {
        bare
    });
    lemma_body_of_an_address(name, git);
    assert(bare.last() == body.last());
    assert(bare[0] == scheme[0]);
    assert(url[0] == scheme[0]);
    assert(!is_whitespace(url.last()));
    lemma_trimmed_is_kept(url);
    lemma_end_slash(bare);
    assert forall|i: int| 0 <= i < bare.len() implies #[trigger] bare[i] != '#' && bare[i] != '?' by {
        lemma_chars_of_an_address(scheme, host, way, body, i);
    }
    lemma_no_place(bare, '#', 0);
    assert(bare.take(bare.len() as int) =~= bare);
    lemma_no_place(bare, '?', 0);
    assert(bare_address(url) == bare);
    let at = scheme.len() as int;
    assert forall|i: int| 0 <= i < at implies #[trigger] bare[i] != ':' by {
        assert(bare[i] == scheme[i]);
    }
    assert(bare[at] == ':' && bare[at + 1] == '/' && bare[at + 2] == '/');
    lemma_scheme(bare, 0, at);
    let s = at + 3 + host.len();
    assert(bare[s] == '/');
    assert forall|i: int| at + 3 <= i < s implies #[trigger] bare[i] != '/' by {
        assert(bare[i] == host[i - at - 3]);
    }
    lemma_slash(bare, at + 3, s);
    let path = way + body;
    assert(bare.skip(s + 1) =~= path);
    lemma_end_of_a_path(way, name, git);
}

proof fn lemma_body_of_an_address(name: Seq<char>, git: bool)
    requires
        is_plain_name(name),
    ensures
        ({
            let body = name + name_ending(git, false);
            &&& body.len() > 0
            &&& body[0] == name[0]
            &&& !is_whitespace(body.last())
            &&& body.last() != '/'
            &&& forall|i: int|
                0 <= i < body.len() ==> #[trigger] body[i] != '/' && body[i] != ':' && body[i] != '#'
                    && body[i] != '?'
            &&& without_git(body) == name
        }),
{
    reveal_strlit(".git");
    let ending = name_ending(git, false);
    let body = name + ending;
    assert(git ==> ending =~= ".git"@);
    assert(!git ==> ending =~= Seq::<char>::empty());
    assert forall|i: int| 0 <= i < body.len() implies #[trigger] body[i] != '/' && body[i] != ':'
        && body[i] != '#' && body[i] != '?' by {
        if i < name.len() {
            assert(body[i] == name[i]);
            assert(!is_unfit_char(name[i]));
        } else {
            assert(body[i] == ".git"@[i - name.len()]);
        }
    }
    if git {
        assert(body.subrange(body.len() - 4, body.len() as int) =~= ".git"@);
        assert(".git"@.is_suffix_of(body));
        assert(body.take(body.len() - 4) =~= name);
        assert(body.last() == 't');
    } else {
        assert(body =~= name);
    }
}

proof fn lemma_chars_of_an_address(
    scheme: Seq<char>,
    host: Seq<char>,
    way: Seq<char>,
    body: Seq<char>,
    i: int,
)
    requires
        ({
            let bare = scheme + "://"@ + host + "/"@ + way + body;
            0 <= i < bare.len()
        }),
        forall|i: int| 0 <= i < way.len() ==> #[trigger] way[i] != '#' && way[i] != '?',
        forall|i: int| 0 <= i < body.len() ==> #[trigger] body[i] != '#' && body[i] != '?',
        forall|i: int| 0 <= i < scheme.len() ==> #[trigger] scheme[i] != '#' && scheme[i] != '?',
        forall|i: int| 0 <= i < host.len() ==> #[trigger] host[i] != '#' && host[i] != '?',
    ensures
        (scheme + "://"@ + host + "/"@ + way + body)[i] != '#',
        (scheme + "://"@ + host + "/"@ + way + body)[i] != '?',
{
    reveal_strlit("://");
    reveal_strlit("/");
    let bare = scheme + "://"@ + host + "/"@ + way + body;
    let a = scheme.len() as int;
    let b = a + 3;
    let c = b + host.len();
    let d = c + 1 + way.len();
    if i < a {
        assert(bare[i] == scheme[i]);
    } else if i < b {
        assert(bare[i] == "://"@[i - a]);
    } else if i < c {
        assert(bare[i] == host[i - b]);
    } else if i == c {
        assert(bare[i] == '/');
    } else if i < d {
        assert(bare[i] == way[i - c - 1]);
    } else {
        assert(bare[i] == body[i - d]);
    }
}

proof fn lemma_end_of_a_path(way: Seq<char>, name: Seq<char>, git: bool)
    requires
        is_plain_name(name),
        way.len() > 0 ==> way.last() == '/' || way.last() == ':',
    ensures
        ({
            let path = way + (name + name_ending(git, false));
            &&& last_segment(path, path.len() as int) == Some(name + name_ending(git, false))
            &&& trimmed(without_git(name + name_ending(git, false))) == name
            &&& !is_unfit_name(name)
        }),
{
    let body = name + name_ending(git, false);
    let path = way + body;
    lemma_body_of_an_address(name, git);
    let start = way.len() as int;
    assert forall|i: int| start <= i < path.len() implies #[trigger] path[i] != '/' && path[i]
        != ':' by {
        assert(path[i] == body[i - start]);
    }
    if start > 0 {
        assert(path[start - 1] == way.last());
    }
    lemma_segment_is(path, start, path.len() as int);
    assert(path.subrange(start, path.len() as int) =~= body);
    lemma_trimmed_is_kept(body);
    lemma_trimmed_is_kept(name);
    if is_unfit_name(name) {
        assert(exists|i: int| 0 <= i < name.len() && is_unfit_char(#[trigger] name[i]));
    }
}

/// A clone of an address without a scheme goes into a folder called like its last part too.
pub proof fn lemma_clone_directory_without_scheme(
    way: Seq<char>,
    name: Seq<char>,
    git: bool,
    slash: bool,
)
    requires
        is_way(way),
        is_plain_name(name),
    ensures
        clone_directory(way + name + name_ending(git, slash)) == Some(name),
{
    reveal_strlit("/");
    reveal_strlit(".git");
    let body = name + name_ending(git, false);
    let bare = way + body;
    let url = way + name + name_ending(git, slash);
    lemma_body_of_an_address(name, git);
    assert(url =~= if slash {
        bare.push('/')
    } else {
        bare
    });
    assert(bare.last() == body.last());
    assert(bare[0] == if way.len() > 0 {
        way[0]
    } else {
        name[0]
    });
    assert(url[0] == bare[0]);
    assert(!is_whitespace(url.last()));
    lemma_trimmed_is_kept(url);
    lemma_end_slash(bare);
    assert forall|i: int| 0 <= i < bare.len() implies #[trigger] bare[i] != '#' && bare[i] != '?' by {
        if i < way.len() {
            assert(bare[i] == way[i]);
        } else {
            assert(bare[i] == body[i - way.len()]);
        }
    }
    lemma_no_place(bare, '#', 0);
    assert(bare.take(bare.len() as int) =~= bare);
    lemma_no_place(bare, '?', 0);
    assert(bare_address(url) == bare);
    assert forall|i: int| 0 <= i < bare.len() - 1 implies !(#[trigger] bare[i] == '/' && bare[i + 1]
        == '/') by {
        if i + 1 < way.len() {
            assert(bare[i] == way[i] && bare[i + 1] == way[i + 1]);
        } else {
            assert(bare[i + 1] == body[i + 1 - way.len()]);
        }
    }
    lemma_no_scheme(bare, 0);
    lemma_end_of_a_path(way, name, git);
}

/// What stands behind a number sign or a question mark is no part of an address.
pub proof fn lemma_what_follows_an_address(address: Seq<char>, rest: Seq<char>)
    requires
        address.len() > 0,
        !is_whitespace(address[0]),
        address.last() != '/',
        forall|i: int| 0 <= i < address.len() ==> #[trigger] address[i] != '#' && address[i] != '?',
        rest.len() > 0,
        !is_whitespace(rest.last()),
        rest.last() != '/',
        rest[0] == '#' || (rest[0] == '?' && forall|i: int| 0 <= i < rest.len() ==> #[trigger] rest[i] != '#'),
    ensures
        bare_address(address + rest) == address,
{
    let url = address + rest;
    let n = address.len() as int;
    assert(url[0] == address[0] && url.last() == rest.last());
    lemma_trimmed_is_kept(url);
    lemma_end_slash(url);
    assert(url[n] == rest[0]);
    assert forall|i: int| 0 <= i < n implies #[trigger] url[i] != '#' && url[i] != '?' by {
        assert(url[i] == address[i]);
    }
    if rest[0] == '#' {
        lemma_place_is(url, '#', 0, n);
        assert(url.take(n) =~= address);
        lemma_no_place(address, '?', 0);
        assert(address.take(n) =~= address);
    } else {
        assert forall|i: int| 0 <= i < url.len() implies #[trigger] url[i] != '#' by {
            if i >= n {
                assert(url[i] == rest[i - n]);
            }
        }
        lemma_no_place(url, '#', 0);
        assert(url.take(url.len() as int) =~= url);
        lemma_place_is(url, '?', 0, n);
        assert(url.take(n) =~= address);
    }
    lemma_end_slash(address);
}

proof fn lemma_place_is(s: Seq<char>, c: char, from: int, at: int)
    requires
        0 <= from <= at < s.len(),
        s[at] == c,
        forall|i: int| from <= i < at ==> #[trigger] s[i] != c,
    ensures
        position_from(s, c, from) == at,
    decreases at - from,
{
    if from < at {
        assert(s[from] != c);
        lemma_place_is(s, c, from + 1, at);
    }
}

/// A name is unfit for a folder if it is empty, stands for a folder that is there, or holds a
/// character that no folder may have.
pub proof fn lemma_unfit_names(name: Seq<char>)
    ensures
        is_unfit_name(name) <==> {
            ||| name.len() == 0
            ||| name == "."@
            ||| name == ".."@
            ||| exists|i: int|
                0 <= i < name.len() && ((#[trigger] name[i]) == '<' || name[i] == '>' || name[i]
                    == '"' || name[i] == '|' || name[i] == '?' || name[i] == '*' || name[i] == '\\'
                    || is_control(name[i]))
        },
{
    if exists|i: int|
        0 <= i < name.len() && ((#[trigger] name[i]) == '<' || name[i] == '>' || name[i] == '"'
            || name[i] == '|' || name[i] == '?' || name[i] == '*' || name[i] == '\\' || is_control(
            name[i],
        )) {
        let i = choose|i: int|
            0 <= i < name.len() && ((#[trigger] name[i]) == '<' || name[i] == '>' || name[i] == '"'
                || name[i] == '|' || name[i] == '?' || name[i] == '*' || name[i] == '\\'
                || is_control(name[i]));
        assert(is_unfit_char(name[i]));
    }
}

/// The paths at some places are those that stand there, and the key of a path is its text in small
/// letters.
pub proof fn lemma_paths_at_places(paths: Seq<Seq<char>>, places: Seq<int>, i: int)
    ensures
        at_places(paths, places).len() == places.len(),
        0 <= i < places.len() ==> at_places(paths, places)[i] == paths[places[i]],
        keys_of(paths).len() == paths.len(),
        0 <= i < paths.len() ==> keys_of(paths)[i] == lowercase(paths[i]),
{
}

} // verus!
