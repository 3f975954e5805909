//! The weights cache: where it is, what is missing from it, and how a file gets
//! into it.
//!
//! Paths are platform-encoded bytes, with `/` between components. Whoever opens or
//! shows one puts the platform's own separator in its place.

use vstd::prelude::*;

use crate::manifest::WeightFile;

verus! {

/// A path below another: the second replaces the first if it is absolute, else it
/// follows it after a separator.
pub open spec fn joined_path(base: Seq<u8>, rel: Seq<u8>) -> Seq<u8> {
    if rel.len() > 0 && rel[0] == 47 {
        rel
    } else if base.len() == 0 || base.last() == 47 {
        base + rel
    } else {
        base.push(47) + rel
    }
}

/// Joins a path below another.
pub fn join_path(base: &[u8], rel: &[u8]) -> (path: Vec<u8>)
    ensures
        path@ == joined_path(base@, rel@),
{
    let mut path: Vec<u8> = Vec::new();
    if rel.len() > 0 && rel[0] == 47 {
        path.extend_from_slice(rel);
        assert(path@ =~= rel@);
        return path;
    }
    path.extend_from_slice(base);
    if base.len() > 0 && base[base.len() - 1] != 47 {
        path.push(47);
    }
    path.extend_from_slice(rel);
    assert(path@ =~= joined_path(base@, rel@));
    path
}

/// The user's cache directory, from `dirs::cache_dir`. It depends on the
/// environment, so nothing is promised of it.
#[verifier::external_body]
fn user_cache() -> (dir: Option<Vec<u8>>) {
    dirs::cache_dir().map(|path| path.as_os_str().as_encoded_bytes().to_vec())
}

/// The user's home directory, from `dirs::home_dir`. It depends on the
/// environment, so nothing is promised of it.
#[verifier::external_body]
fn user_home() -> (dir: Option<Vec<u8>>) {
    dirs::home_dir().map(|path| path.as_os_str().as_encoded_bytes().to_vec())
}

/// The cache base that the two directories give: the cache directory, else `.cache`
/// below home, else a relative `.cache`.
pub open spec fn cache_base(cache: Option<Seq<u8>>, home: Option<Seq<u8>>) -> Seq<u8> {
    match (cache, home) {
        (Some(dir), _) => dir,
        (None, Some(dir)) => joined_path(dir, crate::text::utf8(".cache"@)),
        (None, None) => crate::text::utf8(".cache"@),
    }
}

/// The cache base that the two directories give.
pub fn os_cache_from(cache: Option<Vec<u8>>, home: Option<Vec<u8>>) -> (dir: Vec<u8>)
    ensures
        dir@ == cache_base(crate::manifest::given(cache), crate::manifest::given(home)),
{
    match cache {
        Some(dir) => dir,
        None => match home {
            Some(dir) => join_path(dir.as_slice(), ".cache".as_bytes()),
            None => {
                let mut dir: Vec<u8> = Vec::new();
                dir.extend_from_slice(".cache".as_bytes());
                assert(dir@ =~= crate::text::utf8(".cache"@));
                dir
            },
        },
    }
}

/// The application's cache root below a cache base.
pub open spec fn cache_root(base: Seq<u8>) -> Seq<u8> {
    joined_path(base, crate::text::utf8("upscale"@))
}

/// A model's weights directory below a cache base.
pub open spec fn model_root(base: Seq<u8>, model_name: Seq<u8>) -> Seq<u8> {
    joined_path(joined_path(cache_root(base), crate::text::utf8("models"@)), model_name)
}

/// The application's cache root below a cache base.
pub fn cache_dir_in(base: &[u8]) -> (dir: Vec<u8>)
    ensures
        dir@ == cache_root(base@),
{
    join_path(base, "upscale".as_bytes())
}

/// The directory of all models' weights below a cache base.
pub fn models_root_in(base: &[u8]) -> (dir: Vec<u8>)
    ensures
        dir@ == joined_path(cache_root(base@), crate::text::utf8("models"@)),
{
    let root: Vec<u8> = cache_dir_in(base);
    join_path(root.as_slice(), "models".as_bytes())
}

/// A model's weights directory below a cache base.
pub fn model_cache_dir_in(base: &[u8], model_name: &str) -> (dir: Vec<u8>)
    ensures
        dir@ == model_root(base@, crate::text::utf8(model_name@)),
{
    let root: Vec<u8> = models_root_in(base);
    join_path(root.as_slice(), model_name.as_bytes())
}

/// The cache base on this machine.
fn os_cache() -> (dir: Vec<u8>)
    ensures
        exists|cache: Option<Seq<u8>>, home: Option<Seq<u8>>| dir@ == cache_base(cache, home),
{
    let cache: Option<Vec<u8>> = user_cache();
    let home: Option<Vec<u8>> = user_home();
    let dir: Vec<u8> = os_cache_from(cache, home);
    assert(dir@ == cache_base(crate::manifest::given(cache), crate::manifest::given(home)));
    dir
}

/// The application's cache root: what cleaning the cache removes.
pub fn cache_dir() -> (dir: Vec<u8>)
    ensures
        exists|cache: Option<Seq<u8>>, home: Option<Seq<u8>>|
            dir@ == cache_root(#[trigger] cache_base(cache, home)),
{
    let base: Vec<u8> = os_cache();
    cache_dir_in(base.as_slice())
}

/// A model's weights directory: where its files are downloaded to.
pub fn model_cache_dir(model_name: &str) -> (dir: Vec<u8>)
    ensures
        exists|cache: Option<Seq<u8>>, home: Option<Seq<u8>>|
            dir@ == model_root(#[trigger] cache_base(cache, home), crate::text::utf8(model_name@)),
{
    let base: Vec<u8> = os_cache();
    model_cache_dir_in(base.as_slice(), model_name)
}

/// The scratch path beside a destination.
pub open spec fn part_of(dest: Seq<u8>) -> Seq<u8> {
    dest + crate::text::utf8(".part"@)
}

/// The scratch path that a download is written to before it is renamed: the whole
/// destination with `.part` appended, so that it stays beside it.
pub fn part_path(dest: &[u8]) -> (path: Vec<u8>)
    ensures
        path@ == part_of(dest@),
{
    let mut path: Vec<u8> = Vec::new();
    path.extend_from_slice(dest);
    path.extend_from_slice(".part".as_bytes());
    assert(path@ =~= part_of(dest@));
    path
}

/// Two destinations never share a scratch path, and none is its own.
pub proof fn law_part_paths_distinct(a: Seq<u8>, b: Seq<u8>)
    ensures
        part_of(a) != a,
        a != b ==> part_of(a) != part_of(b),
{
    reveal_strlit(".part");
    let tail = crate::text::utf8(".part"@);
    vstd::utf8::is_ascii_chars_encode_utf8(".part"@);
    assert(tail.len() == 5);
    assert(part_of(a).len() == a.len() + 5);
    if part_of(a) == part_of(b) {
        assert(a =~= part_of(a).take(a.len() as int));
        assert(b =~= part_of(b).take(b.len() as int));
    }
}

/// What is known of a path: whether it is a regular file, and its size.
#[derive(Clone, Copy, Debug)]
pub struct FileInfo {
    pub is_file: bool,
    pub len: u64,
}

/// Whether what is known of a path makes it count as cached.
pub open spec fn counts(info: Option<FileInfo>) -> bool {
    info matches Some(i) && i.is_file && i.len > 0
}

/// Whether a path counts as cached: it exists and is a regular file that is not
/// empty.
pub fn is_present(info: Option<FileInfo>) -> (present: bool)
    ensures
        present == counts(info),
{
    match info {
        Some(info) => info.is_file && info.len > 0,
        None => false,
    }
}

/// A file to fetch.
pub struct Fetch {
    pub url: &'static str,
    /// Where it ends up.
    pub dest: Vec<u8>,
    /// Where it is written to meanwhile.
    pub part: Vec<u8>,
}

/// The numbers of the entries that are not present, among the first `n`.
pub open spec fn missing(present: Seq<bool>, n: nat) -> Seq<int>
    decreases n,
{
    if n == 0 {
        Seq::empty()
    } else if present[n - 1] {
        missing(present, (n - 1) as nat)
    } else {
        missing(present, (n - 1) as nat).push(n - 1)
    }
}

/// A fetch of the given file into the given directory.
pub open spec fn fetches(f: Fetch, root: Seq<u8>, file: WeightFile) -> bool {
    &&& f.url@ == file.url@
    &&& f.dest@ == joined_path(root, crate::text::utf8(file.dest@))
    &&& f.part@ == part_of(f.dest@)
}

/// Entry `i` of a plan fetches the file that the `i`-th of `numbers` names.
pub open spec fn planned(
    plan: Seq<Fetch>,
    root: Seq<u8>,
    files: Seq<WeightFile>,
    numbers: Seq<int>,
    i: int,
) -> bool {
    0 <= numbers[i] < files.len() && fetches(plan[i], root, files[numbers[i]])
}

/// The downloads that bring a cache up to date: every file that is not present, in
/// order.
pub fn plan_downloads(root: &[u8], files: &[WeightFile], present: &[bool]) -> (plan: Vec<Fetch>)
    requires
        present@.len() == files@.len(),
    ensures
        plan@.len() == missing(present@, present@.len()).len(),
        forall|i: int|
            0 <= i < plan@.len() ==> #[trigger] planned(
                plan@,
                root@,
                files@,
                missing(present@, present@.len()),
                i,
            ),
{
    let mut plan: Vec<Fetch> = Vec::new();
    let mut n: usize = 0;
    while n < files.len()
        invariant
            n <= files@.len() == present@.len(),
            plan@.len() == missing(present@, n as nat).len(),
            forall|i: int|
                0 <= i < plan@.len() ==> #[trigger] planned(
                    plan@,
                    root@,
                    files@,
                    missing(present@, n as nat),
                    i,
                ),
        decreases files@.len() - n,
    {
        if !present[n] {
            let dest: Vec<u8> = join_path(root, files[n].dest.as_bytes());
            let part: Vec<u8> = part_path(dest.as_slice());
            let ghost before = plan@;
            plan.push(Fetch { url: files[n].url, dest, part });
            proof {
                let (ks, next) = (missing(present@, n as nat), missing(present@, (n + 1) as nat));
                assert(next == ks.push(n as int));
                assert forall|i: int| 0 <= i < plan@.len() implies #[trigger] planned(
                    plan@,
                    root@,
                    files@,
                    next,
                    i,
                ) by {
                    if i < before.len() {
                        assert(planned(before, root@, files@, ks, i));
                    }
                }
            }
        }
        n = n + 1;
    }
    plan
}

/// Nothing is fetched where everything is present, and everything where nothing is.
pub proof fn law_cached_files_are_reused(present: Seq<bool>, n: nat)
    requires
        n <= present.len(),
    ensures
        (forall|i: int| 0 <= i < n ==> #[trigger] present[i]) ==> missing(present, n).len() == 0,
        (forall|i: int| 0 <= i < n ==> !#[trigger] present[i]) ==> missing(present, n) == Seq::new(
            n,
            |i: int| i,
        ),
        forall|k: int| #[trigger]
            missing(present, n).contains(k) <==> 0 <= k < n && !present[k],
    decreases n,
{
    if n > 0 {
        let m = (n - 1) as nat;
        law_cached_files_are_reused(present, m);
        let (before, after) = (missing(present, m), missing(present, n));
        assert forall|k: int| #[trigger] after.contains(k) <==> 0 <= k < n && !present[k] by {
            if present[n - 1] {
                assert(before.contains(k) <==> after.contains(k));
            } else {
                assert(after == before.push(n - 1));
                if after.contains(k) {
                    let i = choose|i: int| 0 <= i < after.len() && after[i] == k;
                    if i < before.len() {
                        assert(before[i] == k);
                        assert(before.contains(k));
                    }
                }
                if before.contains(k) {
                    let i = choose|i: int| 0 <= i < before.len() && before[i] == k;
                    assert(after[i] == k);
                }
                if k == n - 1 {
                    assert(after[before.len() as int] == k);
                }
            }
        }
        if forall|i: int| 0 <= i < n ==> !#[trigger] present[i] {
            assert(!present[n - 1]);
            assert(after =~= Seq::new(n, |i: int| i));
        }
    } else {
        assert(missing(present, n) =~= Seq::new(n, |i: int| i));
    }
}

/// A relative path joined below a directory lies in it: the joined path begins with the
/// directory, ends with the relative path, and has a separator before that; one is put
/// there only where the directory does not end in one.
pub proof fn law_joined_paths_lie_below(base: Seq<u8>, rel: Seq<u8>)
    requires
        base.len() > 0,
        rel.len() == 0 || rel[0] != 47,
    ensures
        ({
            let path = joined_path(base, rel);
            let lead = path.len() - rel.len();
            &&& path.take(base.len() as int) == base
            &&& path.skip(lead) == rel
            &&& path[lead - 1] == 47
            &&& base.last() == 47 ==> lead == base.len()
            &&& base.last() != 47 ==> lead == base.len() + 1
        }),
{
    let path = joined_path(base, rel);
    assert(path.take(base.len() as int) =~= base);
    assert(path.skip(path.len() - rel.len()) =~= rel);
}

/// An absolute path, or one below no directory, stays as it is.
pub proof fn law_absolute_paths_stand_alone(base: Seq<u8>, rel: Seq<u8>)
    ensures
        rel.len() > 0 && rel[0] == 47 ==> joined_path(base, rel) == rel,
        joined_path(Seq::empty(), rel) == rel,
{
    assert(Seq::<u8>::empty() + rel =~= rel);
}

/// Different relative paths below one directory are different paths, and so are the
/// directories of different models.
pub proof fn law_joined_paths_are_told_apart(base: Seq<u8>, a: Seq<u8>, b: Seq<u8>)
    requires
        a.len() == 0 || a[0] != 47,
        b.len() == 0 || b[0] != 47,
        a != b,
    ensures
        joined_path(base, a) != joined_path(base, b),
        model_root(base, a) != model_root(base, b),
{
    lemma_join_injective(base, a, b);
    lemma_join_injective(joined_path(cache_root(base), crate::text::utf8("models"@)), a, b);
}

/// Different relative paths below one directory are different paths.
proof fn lemma_join_injective(base: Seq<u8>, a: Seq<u8>, b: Seq<u8>)
    requires
        a.len() == 0 || a[0] != 47,
        b.len() == 0 || b[0] != 47,
        a != b,
    ensures
        joined_path(base, a) != joined_path(base, b),
{
    let (p, q) = (joined_path(base, a), joined_path(base, b));
    assert(p.skip(p.len() - a.len()) =~= a);
    assert(q.skip(q.len() - b.len()) =~= b);
}

/// Joining step by step or all at once is the same.
pub proof fn law_joining_is_associative(a: Seq<u8>, b: Seq<u8>, c: Seq<u8>)
    requires
        b.len() > 0,
    ensures
        joined_path(joined_path(a, b), c) == joined_path(a, joined_path(b, c)),
{
    let (left, right) = (joined_path(joined_path(a, b), c), joined_path(a, joined_path(b, c)));
    assert(left =~= right);
}

/// The cache is where the system says, else below home, else below the current
/// directory; and everything of the application lies below its root there.
pub proof fn law_cache_lies_where_the_system_says(dir: Seq<u8>, home: Option<Seq<u8>>, name: Seq<u8>)
    requires
        dir.len() > 0,
        name.len() == 0 || name[0] != 47,
    ensures
        cache_base(Some(dir), home) == dir,
        cache_base(None, Some(dir)).take(dir.len() as int) == dir,
        cache_base(None, Some(dir)) == joined_path(dir, cache_base(None, None)),
        cache_base(None, None) == crate::text::utf8(".cache"@),
        cache_root(dir).take(dir.len() as int) == dir,
        cache_root(dir).skip(cache_root(dir).len() - 7) == crate::text::utf8("upscale"@),
        model_root(dir, name).take(cache_root(dir).len() as int) == cache_root(dir),
        model_root(dir, name).skip(model_root(dir, name).len() - name.len()) == name,
        cache_root(dir).len() > dir.len(),
        model_root(dir, name).len() == cache_root(dir).len() + 8 + name.len(),
{
    reveal_strlit(".cache");
    reveal_strlit("upscale");
    reveal_strlit("models");
    let (hidden, root, models) = (
        crate::text::utf8(".cache"@),
        crate::text::utf8("upscale"@),
        crate::text::utf8("models"@),
    );
    lemma_ascii_first(".cache"@);
    lemma_ascii_first("upscale"@);
    lemma_ascii_first("models"@);
    law_joined_paths_lie_below(dir, hidden);
    law_joined_paths_lie_below(dir, root);
    let top = cache_root(dir);
    law_joined_paths_lie_below(top, models);
    let all = joined_path(top, models);
    assert(top.last() == root.last());
    assert(all.last() == models.last());
    law_joined_paths_lie_below(all, name);
    let last = joined_path(all, name);
    assert(last.take(top.len() as int) =~= last.take(all.len() as int).take(top.len() as int));
}

/// ASCII text is as many bytes long, and neither begins nor ends with a separator unless
/// it says so.
proof fn lemma_ascii_first(text: Seq<char>)
    requires
        text.len() > 0,
        vstd::utf8::is_ascii_chars(text),
        text[0] != '/',
        text.last() != '/',
    ensures
        crate::text::utf8(text).len() == text.len(),
        crate::text::utf8(text)[0] != 47,
        crate::text::utf8(text).last() != 47,
{
    vstd::utf8::is_ascii_chars_encode_utf8(text);
    assert(text[0] as u8 == crate::text::utf8(text)[0]);
    assert(text[text.len() - 1] as u8 == crate::text::utf8(text)[text.len() - 1]);
}

/// Missing files are fetched in the order in which they are listed, each once.
pub proof fn law_missing_files_keep_their_order(present: Seq<bool>, n: nat, i: int, j: int)
    requires
        n <= present.len(),
        0 <= i < j < missing(present, n).len(),
    ensures
        0 <= missing(present, n)[i] < missing(present, n)[j] < n,
    decreases n,
{
    if n > 0 {
        let m = (n - 1) as nat;
        let before = missing(present, m);
        law_cached_files_are_reused(present, m);
        if j < before.len() {
            law_missing_files_keep_their_order(present, m, i, j);
        } else {
            assert(before.contains(before[i]));
        }
    }
}

/// A fetch brings the file from its URL to its place below the directory, by way of a
/// scratch file that is named like it, with an ending of its own.
pub proof fn law_fetches_bring_files_into_place(f: Fetch, root: Seq<u8>, file: WeightFile)
    requires
        fetches(f, root, file),
        root.len() > 0,
        crate::text::utf8(file.dest@).len() > 0,
        crate::text::utf8(file.dest@)[0] != 47,
    ensures
        f.url@ == file.url@,
        f.dest@.take(root.len() as int) == root,
        f.dest@.skip(f.dest@.len() - crate::text::utf8(file.dest@).len()) == crate::text::utf8(
            file.dest@,
        ),
        f.part@.take(f.dest@.len() as int) == f.dest@,
        f.part@.skip(f.dest@.len() as int) == crate::text::utf8(".part"@),
{
    law_joined_paths_lie_below(root, crate::text::utf8(file.dest@));
    assert(f.part@.take(f.dest@.len() as int) =~= f.dest@);
    assert(f.part@.skip(f.dest@.len() as int) =~= crate::text::utf8(".part"@));
}

/// A plan fetches the missing files and no others, in their order.
pub proof fn law_plans_fetch_what_is_missing(
    plan: Seq<Fetch>,
    root: Seq<u8>,
    files: Seq<WeightFile>,
    present: Seq<bool>,
    i: int,
)
    requires
        present.len() == files.len(),
        0 <= i < missing(present, present.len()).len(),
        planned(plan, root, files, missing(present, present.len()), i),
    ensures
        ({
            let k = missing(present, present.len())[i];
            &&& 0 <= k < files.len()
            &&& !present[k]
            &&& plan[i].url@ == files[k].url@
            &&& plan[i].dest@ == joined_path(root, crate::text::utf8(files[k].dest@))
            &&& plan[i].part@ == plan[i].dest@ + crate::text::utf8(".part"@)
        }),
{
    let numbers = missing(present, present.len());
    law_cached_files_are_reused(present, present.len());
    assert(numbers.contains(numbers[i]));
}

/// Only a regular file counts as cached, and every one does but an empty one: a single
/// byte is enough, and a longer file counts where a shorter one does.
pub proof fn law_files_with_content_count(len: u64)
    ensures
        !counts(None),
        !counts(Some(FileInfo { is_file: false, len })),
        !counts(Some(FileInfo { is_file: true, len: 0 })),
        len >= 1 ==> counts(Some(FileInfo { is_file: true, len })),
{
}

} // verus!
