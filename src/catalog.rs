use vstd::prelude::*;
use std::cmp::Ordering;
use vstd::multiset::Multiset;
use crate::config::{Config, SortAlgorithm};
use crate::ordering::{
    flip,
    lex_order,
    natural_order,
    lemma_lex_flip,
    lemma_natural_flip,
    name_compare,
    natural_sort_compare,
};

verus! {

broadcast use vstd::seq_lib::group_to_multiset_ensures, vstd::multiset::group_multiset_axioms;

/// A file found in the directory.
pub struct ImageFile {
    /// Full path of the file.
    pub path: String,
    /// File name, as shown in the window title.
    pub name: String,
    /// Creation time in nanoseconds since the Unix epoch, where it could be read.
    pub created: Option<i128>,
    /// Modification time in nanoseconds since the Unix epoch, where it could be read.
    pub modified: Option<i128>,
}

impl ImageFile {
    pub fn new(path: String, name: String, created: Option<i128>, modified: Option<i128>) -> (r:
        Self)
        ensures
            r.path == path,
            r.name == name,
            r.created == created,
            r.modified == modified,
    {
        ImageFile { path, name, created, modified }
    }
}

/// Orders two timestamps; one that could not be read comes first.
pub open spec fn timestamp_order(a: Option<i128>, b: Option<i128>) -> Ordering {
    match (a, b) {
        (None, None) => Ordering::Equal,
        (None, Some(_)) => Ordering::Less,
        (Some(_), None) => Ordering::Greater,
        (Some(x), Some(y)) => if x < y {
            Ordering::Less
        } else if x > y {
            Ordering::Greater
        } else {
            Ordering::Equal
        },
    }
}

/// The order that `alg` puts two files in.
pub open spec fn file_order(alg: SortAlgorithm, a: ImageFile, b: ImageFile) -> Ordering {
    match alg {
        SortAlgorithm::FileName => lex_order(a.name@, b.name@),
        SortAlgorithm::FileNameNatural => natural_order(a.name@, b.name@),
        SortAlgorithm::CreatedTime => timestamp_order(a.created, b.created),
        SortAlgorithm::ModifiedTime => timestamp_order(a.modified, b.modified),
    }
}

/// Every file of `s` is ordered by `alg` at or before the one that follows it.
pub open spec fn sorted_by(alg: SortAlgorithm, s: Seq<ImageFile>) -> bool {
    forall|k: int| 0 <= k < s.len() - 1 ==> #[trigger] file_order(alg, s[k], s[k + 1]) != Ordering::Greater
}

/// Swapping the two files flips the order.
pub proof fn lemma_file_order_flip(alg: SortAlgorithm, a: ImageFile, b: ImageFile)
    ensures
        file_order(alg, b, a) == flip(file_order(alg, a, b)),
{
    match alg {
        SortAlgorithm::FileName => lemma_lex_flip(a.name@, b.name@, 0),
        SortAlgorithm::FileNameNatural => lemma_natural_flip(a.name@, b.name@, 0, 0),
        _ => {},
    }
}

fn timestamp_compare(a: Option<i128>, b: Option<i128>) -> (r: Ordering)
    ensures
        r == timestamp_order(a, b),
{
    match (a, b) {
        (None, None) => Ordering::Equal,
        (None, Some(_)) => Ordering::Less,
        (Some(_), None) => Ordering::Greater,
        (Some(x), Some(y)) => if x < y {
            Ordering::Less
        } else if x > y {
            Ordering::Greater
        } else {
            Ordering::Equal
        },
    }
}

/// Compares two files in the order that `alg` names.
pub fn compare_files(alg: SortAlgorithm, a: &ImageFile, b: &ImageFile) -> (r: Ordering)
    ensures
        r == file_order(alg, *a, *b),
{
    match alg {
        SortAlgorithm::FileName => name_compare(a.name.as_str(), b.name.as_str()),
        SortAlgorithm::FileNameNatural => natural_sort_compare(a.name.as_str(), b.name.as_str()),
        SortAlgorithm::CreatedTime => timestamp_compare(a.created, b.created),
        SortAlgorithm::ModifiedTime => timestamp_compare(a.modified, b.modified),
    }
}

/// Position `k` of `s` holds the file at position `p[k]` of `orig`, and no
/// position of `orig` is used twice.
pub open spec fn rearranges(s: Seq<ImageFile>, orig: Seq<ImageFile>, p: Seq<int>) -> bool {
    &&& p.len() == s.len()
    &&& s.len() == orig.len()
    &&& forall|k: int| 0 <= k < s.len() ==> 0 <= #[trigger] p[k] < orig.len() && s[k] == orig[p[k]]
    &&& forall|k: int, m: int| 0 <= k < m < s.len() ==> #[trigger] p[k] != #[trigger] p[m]
}

/// Any two files of `s` that compare equal under `alg` come from positions
/// `p` in the same order.
pub open spec fn keeps_ties_in_order(alg: SortAlgorithm, s: Seq<ImageFile>, p: Seq<int>) -> bool {
    forall|k: int, m: int|
        0 <= k < m < s.len() && #[trigger] file_order(alg, s[k], s[m]) == Ordering::Equal ==> p[k]
            < p[m]
}

/// The position at which `x` goes into `r`: before the first file that `x`
/// is not ordered after.
pub open spec fn insert_position(alg: SortAlgorithm, x: ImageFile, r: Seq<ImageFile>) -> nat
    decreases r.len(),
{
    if r.len() == 0 {
        0
    } else if file_order(alg, x, r[0]) != Ordering::Greater {
        0
    } else {
        1 + insert_position(alg, x, r.drop_first())
    }
}

/// `s` put in order by inserting its files, from the last to the first, each
/// at its `insert_position`: the one order that sorting gives.
pub open spec fn insertion_sorted(alg: SortAlgorithm, s: Seq<ImageFile>) -> Seq<ImageFile>
    decreases s.len(),
{
    if s.len() == 0 {
        s
    } else {
        let r = insertion_sorted(alg, s.drop_first());
        r.insert(insert_position(alg, s[0], r) as int, s[0])
    }
}

proof fn lemma_insert_position(alg: SortAlgorithm, x: ImageFile, r: Seq<ImageFile>, j: int)
    requires
        0 <= j <= r.len(),
        forall|k: int| 0 <= k < j ==> file_order(alg, x, #[trigger] r[k]) == Ordering::Greater,
        j < r.len() ==> file_order(alg, x, r[j]) != Ordering::Greater,
    ensures
        insert_position(alg, x, r) == j,
    decreases j,
{
    if j > 0 {
        assert(file_order(alg, x, r[0]) == Ordering::Greater);
        let t = r.drop_first();
        assert forall|k: int| 0 <= k < j - 1 implies file_order(alg, x, #[trigger] t[k])
            == Ordering::Greater by {
            assert(t[k] == r[k + 1]);
        }
        lemma_insert_position(alg, x, t, j - 1);
    }
}

/// Sorts `images` by `alg`, keeping files that compare equal in their order.
pub fn sort_files(alg: SortAlgorithm, images: &mut Vec<ImageFile>)
    ensures
        final(images)@.to_multiset() == old(images)@.to_multiset(),
        sorted_by(alg, final(images)@),
        exists|p: Seq<int>|
            rearranges(final(images)@, old(images)@, p) && keeps_ties_in_order(
                alg,
                final(images)@,
                p,
            ),
        final(images)@ == insertion_sorted(alg, old(images)@),
{
    let ghost all = images@;
    let ghost mut perm: Seq<int> = Seq::empty();
    let mut rest: Vec<ImageFile> = Vec::new();
    std::mem::swap(&mut rest, images);
    assert(images@.to_multiset() =~= Multiset::empty());
    assert(rest@ =~= all.subrange(0, rest@.len() as int));
    while rest.len() > 0
        invariant
            images@.to_multiset().add(rest@.to_multiset()) == all.to_multiset(),
            sorted_by(alg, images@),
            rest@ == all.subrange(0, rest@.len() as int),
            images@.len() + rest@.len() == all.len(),
            perm.len() == images@.len(),
            forall|k: int|
                0 <= k < images@.len() ==> rest@.len() <= #[trigger] perm[k] < all.len()
                    && images@[k] == all[perm[k]],
            forall|k: int, m: int| 0 <= k < m < images@.len() ==> #[trigger] perm[k] != #[trigger] perm[m],
            keeps_ties_in_order(alg, images@, perm),
            images@ == insertion_sorted(alg, all.subrange(rest@.len() as int, all.len() as int)),
        decreases rest.len(),
    {
        let ghost before = rest@;
        let x = rest.pop().unwrap();
        assert(before =~= rest@.push(x));
        let ghost r = rest@.len() as int;
        assert(x == all[r]);
        assert(rest@ =~= all.subrange(0, r));
        let mut j: usize = 0;
        while j < images.len() && matches!(compare_files(alg, &x, &images[j]), Ordering::Greater)
            invariant
                j <= images.len(),
                forall|k: int| 0 <= k < j ==> file_order(alg, x, #[trigger] images@[k]) == Ordering::Greater,
            decreases images.len() - j,
        {
            j = j + 1;
        }
        let ghost s = images@;
        let ghost q = perm;
        proof {
            lemma_insert_position(alg, x, s, j as int);
            let suffix = all.subrange(r, all.len() as int);
            assert(suffix.drop_first() =~= all.subrange(r + 1, all.len() as int));
            assert(suffix[0] == x);
            if j > 0 {
                lemma_file_order_flip(alg, x, s[j - 1]);
            }
        }
        images.insert(j, x);
        assert(images@ == s.insert(j as int, x));
        proof {
            perm = q.insert(j as int, r);
        }
        assert forall|k: int| 0 <= k < images@.len() - 1 implies #[trigger] file_order(
            alg,
            images@[k],
            images@[k + 1],
        ) != Ordering::Greater by {
            if k < j - 1 {
                assert(file_order(alg, s[k], s[k + 1]) != Ordering::Greater);
            } else if k == j - 1 {
            } else if k == j {
            } else {
                let m = k - 1;
                assert(file_order(alg, s[m], s[m + 1]) != Ordering::Greater);
            }
        }
        assert forall|k: int|
            0 <= k < images@.len() implies rest@.len() <= #[trigger] perm[k] < all.len()
                && images@[k] == all[perm[k]] by {
            if k < j {
                assert(perm[k] == q[k]);
            } else if k > j {
                assert(perm[k] == q[k - 1]);
            }
        }
        assert forall|k: int, m: int| 0 <= k < m < images@.len() implies #[trigger] perm[k]
            != #[trigger] perm[m] by {
            if k < j && m < j {
                assert(q[k] != q[m]);
            } else if k < j && m > j {
                assert(q[k] != q[m - 1]);
            } else if k > j && m > j {
                assert(q[k - 1] != q[m - 1]);
            } else if k == j {
                assert(q[m - 1] > r);
            } else {
                assert(q[k] > r);
            }
        }
        assert forall|k: int, m: int|
            0 <= k < m < images@.len() && #[trigger] file_order(alg, images@[k], images@[m])
                == Ordering::Equal implies perm[k] < perm[m] by {
            if k < j && m < j {
                assert(file_order(alg, s[k], s[m]) == Ordering::Equal);
            } else if k < j && m > j {
                assert(file_order(alg, s[k], s[m - 1]) == Ordering::Equal);
            } else if k > j && m > j {
                assert(file_order(alg, s[k - 1], s[m - 1]) == Ordering::Equal);
            } else if k == j {
                assert(q[m - 1] > r);
            } else {
                assert(file_order(alg, x, s[k]) == Ordering::Greater);
                lemma_file_order_flip(alg, x, s[k]);
            }
        }
        assert(images@.to_multiset() == s.to_multiset().insert(x));
    }
    assert(rest@.to_multiset() =~= Multiset::empty());
    assert(rearranges(images@, all, perm));
    assert(all.subrange(0, all.len() as int) =~= all);
}

/// Position of the last '.' among the first `k` characters of `s`, or -1.
pub open spec fn last_dot_before(s: Seq<char>, k: int) -> int
    decreases k,
{
    if k <= 0 {
        -1
    } else if s[k - 1] == '.' {
        k - 1
    } else {
        last_dot_before(s, k - 1)
    }
}

/// The extension of a file name: what follows its last '.', where that dot
/// is not the name's first character.
pub open spec fn extension(name: Seq<char>) -> Option<Seq<char>> {
    let d = last_dot_before(name, name.len() as int);
    if d <= 0 {
        None
    } else {
        Some(name.subrange(d + 1, name.len() as int))
    }
}

/// `c` is the lower-case letter `l`, or its ASCII upper-case form.
pub open spec fn same_letter(c: char, l: char) -> bool {
    c == l || ('A' <= c && c <= 'Z' && (c as u32) + 32 == (l as u32))
}

/// `e` spells the lower-case word `w`, ignoring ASCII case.
pub open spec fn spells(e: Seq<char>, w: Seq<char>) -> bool {
    e.len() == w.len() && forall|i: int| 0 <= i < e.len() ==> same_letter(#[trigger] e[i], w[i])
}

/// jpg, jpeg, png, webp and psd, in any case.
pub open spec fn supported_extension(e: Seq<char>) -> bool {
    spells(e, seq!['j', 'p', 'g']) || spells(e, seq!['j', 'p', 'e', 'g']) || spells(
        e,
        seq!['p', 'n', 'g'],
    ) || spells(e, seq!['w', 'e', 'b', 'p']) || spells(e, seq!['p', 's', 'd'])
}

/// A file of this name is one the viewer shows.
pub open spec fn is_supported_name(name: Seq<char>) -> bool {
    match extension(name) {
        Some(e) => supported_extension(e),
        None => false,
    }
}

/// The files of `s` that the viewer shows, in their order.
pub open spec fn supported_only(s: Seq<ImageFile>) -> Seq<ImageFile>
    decreases s.len(),
{
    if s.len() == 0 {
        Seq::empty()
    } else {
        let r = supported_only(s.drop_last());
        if is_supported_name(s.last().name@) {
            r.push(s.last())
        } else {
            r
        }
    }
}

proof fn lemma_supported_count(s: Seq<ImageFile>, x: ImageFile)
    ensures
        supported_only(s).to_multiset().count(x) == if is_supported_name(x.name@) {
            s.to_multiset().count(x)
        } else {
            0
        },
    decreases s.len(),
{
    if s.len() > 0 {
        lemma_supported_count(s.drop_last(), x);
        assert(s.drop_last().push(s.last()) =~= s);
    }
}

/// A catalog made from a listing that names no file twice holds each
/// supported file of the listing exactly once, and nothing else.
pub proof fn lemma_catalog_holds_each_supported_file_once(
    entries: Seq<ImageFile>,
    images: Seq<ImageFile>,
)
    requires
        entries.no_duplicates(),
        images.to_multiset() == supported_only(entries).to_multiset(),
    ensures
        images.no_duplicates(),
        forall|f: ImageFile|
            #[trigger] images.contains(f) <==> (entries.contains(f) && is_supported_name(f.name@)),
{
    entries.lemma_multiset_has_no_duplicates();
    assert forall|f: ImageFile| images.to_multiset().contains(f) implies images.to_multiset().count(
        f,
    ) == 1 by {
        lemma_supported_count(entries, f);
    }
    images.lemma_multiset_has_no_duplicates_conv();
    assert forall|f: ImageFile|
        #[trigger] images.contains(f) <==> (entries.contains(f) && is_supported_name(
            f.name@,
        )) by {
        lemma_supported_count(entries, f);
    }
}

/// Whether the characters of `s` from `start` to its end spell `word`,
/// ignoring ASCII case.
fn tail_spells(s: &str, start: usize, word: &[char]) -> (r: bool)
    requires
        start <= s@.len(),
    ensures
        r == spells(s@.subrange(start as int, s@.len() as int), word@),
{
    let n = s.unicode_len();
    if n - start != word.len() {
        return false;
    }
    let mut i: usize = 0;
    while i < word.len()
        invariant
            n == s@.len(),
            start <= n,
            n - start == word@.len(),
            i <= word@.len(),
            forall|k: int| 0 <= k < i ==> same_letter(#[trigger] s@[start + k], word@[k]),
        decreases word.len() - i,
    {
        let c = s.get_char(start + i);
        let l = word[i];
        assert(c == s@[start + i as int]);
        assert(l == word@[i as int]);
        let same = c == l || ('A' <= c && c <= 'Z' && c as u32 + 32 == l as u32);
        if !same {
            assert(!same_letter(s@.subrange(start as int, n as int)[i as int], word@[i as int]));
            return false;
        }
        assert(same_letter(s@[start + i as int], word@[i as int]));
        i = i + 1;
    }
    assert forall|k: int| 0 <= k < word@.len() implies same_letter(
        #[trigger] s@.subrange(start as int, n as int)[k],
        word@[k],
    ) by {
        assert(same_letter(s@[start + k], word@[k]));
    }
    true
}

/// The position just past the last '.' of `name`, or 0 where it has none.
fn after_last_dot(name: &str) -> (r: usize)
    ensures
        r == last_dot_before(name@, name@.len() as int) + 1,
        r <= name@.len(),
{
    let n = name.unicode_len();
    let mut k: usize = n;
    while k > 0 && name.get_char(k - 1) != '.'
        invariant
            n == name@.len(),
            k <= n,
            last_dot_before(name@, n as int) == last_dot_before(name@, k as int),
        decreases k,
    {
        k = k - 1;
    }
    k
}

/// Whether a file of this name is a Photoshop document (extension psd, in
/// any case), which is decoded by its own route.
pub fn is_psd_file(name: &str) -> (r: bool)
    ensures
        r == match extension(name@) {
            Some(e) => spells(e, seq!['p', 's', 'd']),
            None => false,
        },
{
    let k = after_last_dot(name);
    if k <= 1 {
        return false;
    }
    let psd: [char; 3] = ['p', 's', 'd'];
    assert(psd@ == seq!['p', 's', 'd']);
    tail_spells(name, k, &psd)
}

/// The cursor position that `next_image` moves to in a catalog of `n` files.
pub open spec fn next_index(i: nat, n: nat) -> nat {
    if n == 0 {
        i
    } else {
        ((i + 1) as int % (n as int)) as nat
    }
}

/// The cursor position that `previous_image` moves to in a catalog of `n` files.
pub open spec fn previous_index(i: nat, n: nat) -> nat {
    if n == 0 {
        i
    } else if i == 0 {
        (n - 1) as nat
    } else {
        (i - 1) as nat
    }
}

/// The cursor position after `k` moves forward.
pub open spec fn next_index_times(i: nat, n: nat, k: nat) -> nat
    decreases k,
{
    if k == 0 {
        i
    } else {
        next_index(next_index_times(i, n, (k - 1) as nat), n)
    }
}

/// Moving the cursor forward once per file brings it back where it started,
/// and moving it back from the first file lands on the last one.
pub proof fn lemma_navigation_cycles(start: nat, n: nat)
    requires
        n >= 1,
        start < n,
    ensures
        next_index_times(start, n, n) == start,
        previous_index(0, n) == n - 1,
{
    lemma_next_index_times(start, n, n);
    vstd::arithmetic::div_mod::lemma_mod_add_multiples_vanish(start as int, n as int);
    vstd::arithmetic::div_mod::lemma_small_mod(start, n);
}

proof fn lemma_next_index_times(start: nat, n: nat, k: nat)
    requires
        n >= 1,
        start < n,
    ensures
        next_index_times(start, n, k) as int == (start + k) as int % (n as int),
    decreases k,
{
    if k == 0 {
        vstd::arithmetic::div_mod::lemma_small_mod(start, n);
    } else {
        lemma_next_index_times(start, n, (k - 1) as nat);
        vstd::arithmetic::div_mod::lemma_add_mod_noop(start + k - 1, 1, n as int);
        vstd::arithmetic::div_mod::lemma_mod_twice(start + k - 1, n as int);
        if n == 1 {
            vstd::arithmetic::div_mod::lemma_mod_self_0(1);
        } else {
            vstd::arithmetic::div_mod::lemma_small_mod(1, n);
        }
    }
}

/// Some file of `s` has the path `p`.
pub open spec fn has_path(s: Seq<ImageFile>, p: Seq<char>) -> bool {
    exists|k: int| 0 <= k < s.len() && #[trigger] s[k].path@ == p
}

/// The position of the first file of `s` with the path `p`.
pub open spec fn first_with_path(s: Seq<ImageFile>, p: Seq<char>) -> int
    recommends
        has_path(s, p),
{
    choose|k: int|
        0 <= k < s.len() && s[k].path@ == p && forall|m: int|
            0 <= m < k ==> #[trigger] s[m].path@ != p
}

proof fn lemma_first_with_path_unique(s: Seq<ImageFile>, p: Seq<char>, k: int)
    requires
        0 <= k < s.len(),
        s[k].path@ == p,
        forall|m: int| 0 <= m < k ==> #[trigger] s[m].path@ != p,
    ensures
        has_path(s, p),
        first_with_path(s, p) == k,
{
    let c = first_with_path(s, p);
    assert(0 <= c < s.len() && s[c].path@ == p && forall|m: int|
        0 <= m < c ==> #[trigger] s[m].path@ != p);
    if c < k {
        assert(s[c].path@ != p);
    } else if c > k {
        assert(s[k].path@ != p);
    }
}

/// The catalog: the image files of one directory in sorted order, and a
/// cursor on the one shown.
pub struct ImageHandler {
    /// The files, in the configured order.
    pub images: Vec<ImageFile>,
    /// Position of the file shown.
    pub current_index: usize,
    /// The settings the catalog was made with.
    pub config: Config,
}

impl ImageHandler {
    /// The order that the catalog sorts its files in.
    pub open spec fn algorithm(&self) -> SortAlgorithm {
        self.config.sort_algorithm
    }

    /// The cursor lies on a file whenever there is one.
    pub open spec fn wf(&self) -> bool {
        self.images.len() > 0 ==> self.current_index < self.images.len()
    }

    pub fn new(config: Config) -> (r: Self)
        ensures
            r.wf(),
            r.images@.len() == 0,
            r.current_index == 0,
            r.config == config,
    {
        ImageHandler { images: Vec::new(), current_index: 0, config }
    }

    /// Whether a file of this name has one of the supported extensions
    /// (jpg, jpeg, png, webp, psd; case does not matter).
    pub fn is_supported_format(&self, name: &str) -> (r: bool)
        ensures
            r == is_supported_name(name@),
    {
        let k = after_last_dot(name);
        if k <= 1 {
            return false;
        }
        let jpg: [char; 3] = ['j', 'p', 'g'];
        let jpeg: [char; 4] = ['j', 'p', 'e', 'g'];
        let png: [char; 3] = ['p', 'n', 'g'];
        let webp: [char; 4] = ['w', 'e', 'b', 'p'];
        let psd: [char; 3] = ['p', 's', 'd'];
        assert(jpg@ == seq!['j', 'p', 'g']);
        assert(jpeg@ == seq!['j', 'p', 'e', 'g']);
        assert(png@ == seq!['p', 'n', 'g']);
        assert(webp@ == seq!['w', 'e', 'b', 'p']);
        assert(psd@ == seq!['p', 's', 'd']);
        tail_spells(name, k, &jpg) || tail_spells(name, k, &jpeg) || tail_spells(name, k, &png)
            || tail_spells(name, k, &webp) || tail_spells(name, k, &psd)
    }

    /// Puts `images` in the configured order.
    fn sort_images(&self, images: &mut Vec<ImageFile>)
        ensures
            final(images)@.to_multiset() == old(images)@.to_multiset(),
            sorted_by(self.algorithm(), final(images)@),
            exists|p: Seq<int>|
                rearranges(final(images)@, old(images)@, p) && keeps_ties_in_order(
                    self.algorithm(),
                    final(images)@,
                    p,
                ),
            final(images)@ == insertion_sorted(self.algorithm(), old(images)@),
    {
        sort_files(self.config.sort_algorithm, images);
    }

    /// Replaces the catalog with the supported files among `entries` (the
    /// files of a directory), sorted, and puts the cursor on the first.
    pub fn load_images_from_directory(&mut self, entries: Vec<ImageFile>)
        ensures
            final(self).wf(),
            final(self).config == old(self).config,
            final(self).images@.to_multiset() == supported_only(entries@).to_multiset(),
            sorted_by(final(self).algorithm(), final(self).images@),
            exists|p: Seq<int>|
                rearranges(final(self).images@, supported_only(entries@), p)
                    && keeps_ties_in_order(final(self).algorithm(), final(self).images@, p),
            final(self).images@ == insertion_sorted(
                final(self).algorithm(),
                supported_only(entries@),
            ),
            final(self).current_index == 0,
    {
        let ghost all = entries@;
        let mut rest = entries;
        let mut kept: Vec<ImageFile> = Vec::new();
        while rest.len() > 0
            invariant
                supported_only(rest@) + kept@ == supported_only(all),
            decreases rest.len(),
        {
            let ghost before = rest@;
            let f = rest.pop().unwrap();
            assert(before.drop_last() == rest@);
            let keep = self.is_supported_format(f.name.as_str());
            let ghost k0 = kept@;
            if keep {
                kept.insert(0, f);
                assert(supported_only(rest@) + kept@ =~= supported_only(rest@).push(f) + k0);
            }
        }
        assert(supported_only(rest@) + kept@ =~= kept@);
        self.sort_images(&mut kept);
        self.images = kept;
        self.current_index = 0;
    }

    /// Loads the catalog as `load_images_from_directory` does and puts the
    /// cursor on the first file whose path is `target`; where there is none,
    /// the cursor stays on the first file.
    pub fn load_images_with_target(&mut self, entries: Vec<ImageFile>, target: &String)
        ensures
            final(self).wf(),
            final(self).config == old(self).config,
            final(self).images@.to_multiset() == supported_only(entries@).to_multiset(),
            sorted_by(final(self).algorithm(), final(self).images@),
            exists|p: Seq<int>|
                rearranges(final(self).images@, supported_only(entries@), p)
                    && keeps_ties_in_order(final(self).algorithm(), final(self).images@, p),
            final(self).images@ == insertion_sorted(
                final(self).algorithm(),
                supported_only(entries@),
            ),
            has_path(final(self).images@, target@) ==> final(self).current_index
                == first_with_path(final(self).images@, target@),
            !has_path(final(self).images@, target@) ==> final(self).current_index == 0,
    {
        self.load_images_from_directory(entries);
        let mut k: usize = 0;
        while k < self.images.len()
            invariant
                self.config == old(self).config,
                self.images@.to_multiset() == supported_only(entries@).to_multiset(),
                sorted_by(self.algorithm(), self.images@),
                exists|p: Seq<int>|
                    rearranges(self.images@, supported_only(entries@), p)
                        && keeps_ties_in_order(self.algorithm(), self.images@, p),
                self.images@ == insertion_sorted(self.algorithm(), supported_only(entries@)),
                self.wf(),
                self.current_index == 0,
                k <= self.images@.len(),
                forall|m: int| 0 <= m < k ==> #[trigger] self.images@[m].path@ != target@,
            decreases self.images.len() - k,
        {
            if self.images[k].path == *target {
                assert(0 <= k < self.images@.len() && self.images@[k as int].path@ == target@
                    && forall|m: int| 0 <= m < k ==> #[trigger] self.images@[m].path@ != target@);
                self.current_index = k;
                proof {
                    lemma_first_with_path_unique(self.images@, target@, k as int);
                }
                return;
            }
            k = k + 1;
        }
    }

    /// The file under the cursor, or none where the catalog is empty.
    pub fn current_image(&self) -> (r: Option<&ImageFile>)
        requires
            self.wf(),
        ensures
            self.images@.len() == 0 ==> r.is_none(),
            self.images@.len() > 0 ==> r == Some(&self.images@[self.current_index as int]),
    {
        if self.current_index < self.images.len() {
            Some(&self.images[self.current_index])
        } else {
            None
        }
    }

    /// Moves the cursor to the next file, from the last back to the first;
    /// does nothing on an empty catalog.
    pub fn next_image(&mut self)
        requires
            old(self).wf(),
        ensures
            final(self).wf(),
            final(self).images == old(self).images,
            final(self).config == old(self).config,
            final(self).current_index == next_index(
                old(self).current_index as nat,
                old(self).images@.len(),
            ),
    {
        if self.images.len() > 0 {
            self.current_index = (self.current_index + 1) % self.images.len();
        }
    }

    /// Moves the cursor to the previous file, from the first to the last;
    /// does nothing on an empty catalog.
    pub fn previous_image(&mut self)
        requires
            old(self).wf(),
        ensures
            final(self).wf(),
            final(self).images == old(self).images,
            final(self).config == old(self).config,
            final(self).current_index == previous_index(
                old(self).current_index as nat,
                old(self).images@.len(),
            ),
    {
        if self.images.len() > 0 {
            self.current_index = if self.current_index == 0 {
                self.images.len() - 1
            } else {
                self.current_index - 1
            };
        }
    }

    pub fn is_empty(&self) -> (r: bool)
        ensures
            r == (self.images@.len() == 0),
    {
        self.images.len() == 0
    }

    pub fn len(&self) -> (r: usize)
        ensures
            r == self.images@.len(),
    {
        self.images.len()
    }
}

} // verus!
