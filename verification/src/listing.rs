//! The management view's data: every stored file with its public URL,
//! creation date, human-readable size and delete link, sorted by descending
//! size, together with the total count and total size.
use vstd::prelude::*;
use vstd::multiset::group_multiset_axioms;
use vstd::seq_lib::group_to_multiset_ensures;
use crate::upload::url_of;

verus! {

/// Creation stamps after 9999-12-31T23:59:59 UTC (or before 1970) are
/// treated as unavailable metadata and their entries are skipped.
pub const MAX_DATE_SECS: i64 = 253402300799;

/// One directory entry as the filesystem reports it: its name, its byte
/// length, its creation time in seconds since the Unix epoch (`None` when
/// the metadata is unavailable), and whether it is a directory.
pub struct FileEntry {
    /// The file's name inside the upload directory.
    pub name: String,
    /// The file's length in bytes.
    pub len: u64,
    /// Seconds since the Unix epoch of the creation stamp, if available.
    pub created_secs: Option<i64>,
    /// Whether the entry is a directory.
    pub is_dir: bool,
}

/// One row of the rendered listing.
pub struct ListedFile {
    /// The stored file's name.
    pub name: String,
    /// Its public URL.
    pub url: String,
    /// Its creation date, rendered as `YYYY-MM-DD`.
    pub date: String,
    /// Its human-readable size in binary units.
    pub size: String,
    /// The link that deletes it, with the key embedded as a query parameter.
    pub delete_url: String,
    /// Its raw byte length.
    pub len: u64,
}

/// The whole management view.
pub struct Listing {
    /// The rows, sorted by descending byte length.
    pub files: Vec<ListedFile>,
    /// How many rows there are.
    pub total: usize,
    /// The human-readable sum of all rows' byte lengths.
    pub total_size: String,
}

/// The mathematical content of a kept directory entry.
pub ghost struct KeptM {
    /// The file's name.
    pub name: Seq<char>,
    /// Its byte length.
    pub len: u64,
    /// Its creation stamp in seconds since the Unix epoch.
    pub secs: i64,
}

/// The mathematical content of one listing row.
pub ghost struct RowM {
    /// The file's name.
    pub name: Seq<char>,
    /// Its public URL.
    pub url: Seq<char>,
    /// Its rendered creation date.
    pub date: Seq<char>,
    /// Its rendered size.
    pub size: Seq<char>,
    /// Its delete link.
    pub delete_url: Seq<char>,
    /// Its raw byte length.
    pub len: u64,
}

/// What chrono renders for a creation stamp with `%Y-%m-%d` in UTC: a
/// function of the stamp alone.
pub uninterp spec fn date_ymd_of(secs: i64) -> Seq<char>;

/// What humansize renders for a byte count in binary units: a function of
/// the count alone.
pub uninterp spec fn human_size_of(n: u64) -> Seq<char>;

/// An entry appears in the listing: it is a file, its creation stamp is
/// available and renderable, and it is not the key file itself.
pub open spec fn kept(e: FileEntry) -> bool {
    &&& !e.is_dir
    &&& e.created_secs matches Some(s) && 0 <= s <= MAX_DATE_SECS
    &&& e.name@ != "api-key"@
}

/// The creation stamp of an entry, defaulting to zero when absent.
pub open spec fn secs_of(e: FileEntry) -> i64 {
    match e.created_secs {
        Some(s) => s,
        None => 0,
    }
}

/// The content of one entry.
pub open spec fn model_of(e: FileEntry) -> KeptM {
    KeptM { name: e.name@, len: e.len, secs: secs_of(e) }
}

/// The kept entries of a directory, in order, as their contents.
pub open spec fn kept_models(entries: Seq<FileEntry>) -> Seq<KeptM>
    decreases entries.len(),
{
    if entries.len() == 0 {
        Seq::empty()
    } else if kept(entries.last()) {
        kept_models(entries.drop_last()) + seq![model_of(entries.last())]
    } else {
        kept_models(entries.drop_last())
    }
}

/// The delete link of a stored name: the site base URL, the delete route,
/// and the shared secret as a query parameter.
pub open spec fn delete_url_of(site: Seq<char>, name: Seq<char>, key: Seq<char>) -> Seq<char> {
    site + "/delete/"@ + name + "?key="@ + key
}

/// The row that one kept entry produces.
pub open spec fn row_of(k: KeptM, site: Seq<char>, key: Seq<char>) -> RowM {
    RowM {
        name: k.name,
        url: url_of(site, k.name),
        date: date_ymd_of(k.secs),
        size: human_size_of(k.len),
        delete_url: delete_url_of(site, k.name, key),
        len: k.len,
    }
}

/// The content of one rendered row.
pub open spec fn row_model(f: ListedFile) -> RowM {
    RowM {
        name: f.name@,
        url: f.url@,
        date: f.date@,
        size: f.size@,
        delete_url: f.delete_url@,
        len: f.len,
    }
}

/// The contents of a vector of rendered rows.
pub open spec fn models_of(rows: Seq<ListedFile>) -> Seq<RowM> {
    rows.map_values(|f: ListedFile| row_model(f))
}

/// The rows that a directory's kept entries produce, in directory order.
pub open spec fn rows_spec(entries: Seq<FileEntry>, site: Seq<char>, key: Seq<char>) -> Seq<RowM> {
    kept_models(entries).map_values(|k: KeptM| row_of(k, site, key))
}

/// The sum of the byte lengths of kept entries.
pub open spec fn sum_kept(s: Seq<KeptM>) -> int
    decreases s.len(),
{
    if s.len() == 0 {
        0
    } else {
        sum_kept(s.drop_last()) + s.last().len
    }
}

/// The sum of the byte lengths of listing rows.
pub open spec fn sum_rows(s: Seq<RowM>) -> int
    decreases s.len(),
{
    if s.len() == 0 {
        0
    } else {
        sum_rows(s.drop_last()) + s.last().len
    }
}

/// Rows ordered by non-increasing byte length.
pub open spec fn sorted_desc(s: Seq<ListedFile>) -> bool {
    forall|i: int, j: int| 0 <= i <= j < s.len() ==> s[i].len >= s[j].len
}

/// Relies on chrono's `DateTime::from_timestamp` and `%Y-%m-%d` formatting:
/// for stamps between 1970 and the year 9999 the stamp is in range, and the
/// rendered date depends on the stamp alone and has four-digit years.
#[verifier::external_body]
fn format_date(secs: i64) -> (r: String)
    requires
        0 <= secs <= MAX_DATE_SECS,
    ensures
        r@ == date_ymd_of(secs),
        r@.len() == 10,
{
    let dt = chrono::DateTime::from_timestamp(secs, 0).unwrap();
    dt.format("%Y-%m-%d").to_string()
}

/// Relies on humansize's `format_size` with `BINARY` options: the rendered
/// size depends on the byte count alone.
#[verifier::external_body]
fn human_size(n: u64) -> (r: String)
    ensures
        r@ == human_size_of(n),
{
    humansize::format_size(n, humansize::BINARY)
}

/// A prefix of the kept entries never outweighs the whole.
proof fn lemma_sum_kept_prefix(s: Seq<FileEntry>, j: int)
    requires
        0 <= j <= s.len(),
    ensures
        sum_kept(kept_models(s.take(j))) <= sum_kept(kept_models(s)),
    decreases s.len() - j,
{
    if j == s.len() {
        assert(s.take(j) =~= s);
    } else {
        lemma_sum_kept_prefix(s, j + 1);
        let t1 = s.take(j + 1);
        assert(t1.drop_last() =~= s.take(j));
        if kept(t1.last()) {
            let km = kept_models(s.take(j));
            let ap = km + seq![model_of(t1.last())];
            assert(ap.drop_last() =~= km);
            assert(sum_kept(ap) == sum_kept(km) + model_of(t1.last()).len);
        }
    }
}

/// Collects the kept entries into rendered rows, in directory order, and
/// adds up their byte lengths; reports the overflow when the sum does not
/// fit in a byte count.
fn collect_rows(entries: &Vec<FileEntry>, site: &String, key: &String) -> (r: Option<
    (Vec<ListedFile>, u64),
>)
    ensures
        match r {
            Some(p) => {
                &&& models_of(p.0@) == rows_spec(entries@, site@, key@)
                &&& p.1 as int == sum_kept(kept_models(entries@))
            },
            None => sum_kept(kept_models(entries@)) > u64::MAX,
        },
{
    let api_key_name = String::from_str("api-key");
    let mut rows: Vec<ListedFile> = Vec::new();
    let mut total: u64 = 0;
    let mut i: usize = 0;
    while i < entries.len()
        invariant
            i <= entries@.len(),
            api_key_name@ == "api-key"@,
            models_of(rows@) == rows_spec(entries@.take(i as int), site@, key@),
            total as int == sum_kept(kept_models(entries@.take(i as int))),
        decreases entries@.len() - i,
    {
        let e = &entries[i];
        proof {
            let t1 = entries@.take(i + 1);
            assert(t1.drop_last() =~= entries@.take(i as int));
            assert(t1.last() == entries@[i as int]);
        }
        let keep = !e.is_dir && match e.created_secs {
            Some(s) => 0 <= s && s <= MAX_DATE_SECS && !e.name.eq(&api_key_name),
            None => false,
        };
        if keep {
            let secs = match e.created_secs {
                Some(s) => s,
                None => 0,
            };
            total = match total.checked_add(e.len) {
                Some(t) => t,
                None => {
                    proof {
                        let t1 = entries@.take(i + 1);
                        let em = model_of(entries@[i as int]);
                        assert(kept(t1.last()));
                        assert(kept_models(t1) == kept_models(entries@.take(i as int)) + seq![em]);
                        let ap = kept_models(entries@.take(i as int)) + seq![em];
                        assert(ap.drop_last() =~= kept_models(entries@.take(i as int)));
                        assert(sum_kept(kept_models(t1)) == total + em.len);
                        lemma_sum_kept_prefix(entries@, i + 1);
                    }
                    return None;
                },
            };
            let mut url = site.clone();
            url.append("/");
            url.append(e.name.as_str());
            let mut delete_url = site.clone();
            delete_url.append("/delete/");
            delete_url.append(e.name.as_str());
            delete_url.append("?key=");
            delete_url.append(key.as_str());
            let date = format_date(secs);
            let size = human_size(e.len);
            let row = ListedFile {
                name: e.name.clone(),
                url,
                date,
                size,
                delete_url,
                len: e.len,
            };
            proof {
                let ghost em = model_of(entries@[i as int]);
                assert(row_model(row) == row_of(em, site@, key@));
                let t1 = entries@.take(i + 1);
                assert(kept_models(t1) == kept_models(entries@.take(i as int)) + seq![em]);
                assert(rows_spec(t1, site@, key@) =~= rows_spec(
                    entries@.take(i as int),
                    site@,
                    key@,
                ).push(row_of(em, site@, key@)));
                assert(models_of(rows@.push(row)) =~= models_of(rows@).push(row_model(row)));
                let ap = kept_models(entries@.take(i as int)) + seq![em];
                assert(ap.drop_last() =~= kept_models(entries@.take(i as int)));
                assert(sum_kept(ap) == sum_kept(kept_models(entries@.take(i as int))) + em.len);
            }
            rows.push(row);
        } else {
            proof {
                let t1 = entries@.take(i + 1);
                assert(kept_models(t1) == kept_models(entries@.take(i as int)));
            }
        }
        i = i + 1;
    }
    proof {
        assert(entries@.take(entries@.len() as int) =~= entries@);
    }
    Some((rows, total))
}

/// Sorts listing rows by non-increasing byte length, keeping exactly the
/// same rows.
fn sort_rows_desc(rows: Vec<ListedFile>) -> (r: Vec<ListedFile>)
    ensures
        models_of(r@).to_multiset() == models_of(rows@).to_multiset(),
        sorted_desc(r@),
        r@.len() == rows@.len(),
{
    broadcast use group_to_multiset_ensures, group_multiset_axioms;

    let ghost orig = models_of(rows@).to_multiset();
    let ghost n = rows@.len();
    let mut src = rows;
    let mut out: Vec<ListedFile> = Vec::new();
    while src.len() > 0
        invariant
            models_of(out@).to_multiset().add(models_of(src@).to_multiset()) == orig,
            out@.len() + src@.len() == n,
            sorted_desc(out@),
            forall|a: int, b: int|
                0 <= a < out@.len() && 0 <= b < src@.len() ==> out@[a].len >= src@[b].len,
        decreases src@.len(),
    {
        let mut m: usize = 0;
        let mut i: usize = 1;
        while i < src.len()
            invariant
                0 < src@.len(),
                m < i,
                i <= src@.len(),
                forall|k: int| 0 <= k < i ==> src@[m as int].len >= src@[k].len,
            decreases src@.len() - i,
        {
            if src[i].len > src[m].len {
                m = i;
            }
            i = i + 1;
        }
        let ghost src_old = src@;
        let ghost out_old = out@;
        let x = src.remove(m);
        proof {
            broadcast use group_to_multiset_ensures, group_multiset_axioms;

            let ghost xm = row_model(x);
            assert(models_of(src@) =~= models_of(src_old).remove(m as int));
            assert(models_of(src_old)[m as int] == xm);
            assert(models_of(src_old).contains(xm));
            assert(models_of(src_old).to_multiset().count(xm) > 0);
            assert(models_of(out_old.push(x)) =~= models_of(out_old).push(xm));
            assert(models_of(out_old).to_multiset().insert(xm).add(
                models_of(src_old).to_multiset().remove(xm),
            ) =~= models_of(out_old).to_multiset().add(models_of(src_old).to_multiset()));
        }
        out.push(x);
        proof {
            broadcast use group_to_multiset_ensures, group_multiset_axioms;

            let ghost xm = row_model(x);
            assert(models_of(out@) =~= models_of(out_old).push(xm));
            assert(models_of(out@).to_multiset() =~= models_of(out_old).to_multiset().insert(xm));
            assert(models_of(src@).to_multiset() =~= models_of(src_old).to_multiset().remove(xm));
            assert(models_of(out@).to_multiset().add(models_of(src@).to_multiset()) =~= orig);
            assert forall|a: int, b: int|
                0 <= a < out@.len() && 0 <= b < src@.len() implies out@[a].len >= src@[b].len by {
                if a < out_old.len() {
                    if b < m {
                        assert(src@[b] == src_old[b]);
                    } else {
                        assert(src@[b] == src_old[b + 1]);
                    }
                } else {
                    assert(out@[a] == x);
                    assert(x.len == src_old[m as int].len);
                    if b < m {
                        assert(src@[b] == src_old[b]);
                    } else {
                        assert(src@[b] == src_old[b + 1]);
                    }
                }
            }
            assert(sorted_desc(out@)) by {
                assert forall|i2: int, j2: int|
                    0 <= i2 <= j2 < out@.len() implies out@[i2].len >= out@[j2].len by {
                    if j2 < out_old.len() {
                        assert(out@[i2] == out_old[i2] && out@[j2] == out_old[j2]);
                    } else if i2 < out_old.len() {
                        assert(out@[i2] == out_old[i2] && out@[j2] == x);
                        assert(src_old[m as int] == x);
                        assert(out_old[i2].len >= src_old[m as int].len);
                    }
                }
            }
        }
    }
    out
}

/// Removing one row takes exactly its byte length out of the sum.
proof fn lemma_sum_rows_remove(s: Seq<RowM>, i: int)
    requires
        0 <= i < s.len(),
    ensures
        sum_rows(s.remove(i)) == sum_rows(s) - s[i].len,
    decreases s.len(),
{
    if i == s.len() - 1 {
        assert(s.remove(i) =~= s.drop_last());
    } else {
        let t = s.drop_last();
        lemma_sum_rows_remove(t, i);
        assert(s.remove(i).drop_last() =~= t.remove(i));
        assert(s.remove(i).last() == s.last());
        assert(t[i] == s[i]);
    }
}

/// Two row sequences holding the same rows have the same byte-length sum:
/// sorting the listing does not change its total size.
pub proof fn lemma_sum_rows_permutation(s1: Seq<RowM>, s2: Seq<RowM>)
    requires
        s1.to_multiset() == s2.to_multiset(),
    ensures
        sum_rows(s1) == sum_rows(s2),
    decreases s1.len(),
{
    broadcast use group_to_multiset_ensures, group_multiset_axioms;

    if s1.len() == 0 {
        assert(s2.to_multiset().len() == 0);
    } else {
        let x = s1.last();
        assert(s1[s1.len() - 1] == x);
        assert(s1.contains(x));
        assert(s2.to_multiset().count(x) > 0);
        assert(s2.contains(x));
        let j = choose|j: int| 0 <= j < s2.len() && s2[j] == x;
        let t1 = s1.drop_last();
        let t2 = s2.remove(j);
        assert(s1 =~= t1.push(x));
        assert(t1.push(x).to_multiset() == t1.to_multiset().insert(x));
        assert(t2.to_multiset() == s2.to_multiset().remove(x));
        assert(t1.to_multiset() =~= s1.to_multiset().remove(x));
        lemma_sum_rows_permutation(t1, t2);
        lemma_sum_rows_remove(s2, j);
    }
}

/// The rows of the kept entries weigh exactly what the kept entries weigh.
proof fn lemma_sum_rows_of_kept(s: Seq<KeptM>, site: Seq<char>, key: Seq<char>)
    ensures
        sum_rows(s.map_values(|k: KeptM| row_of(k, site, key))) == sum_kept(s),
    decreases s.len(),
{
    let f = |k: KeptM| row_of(k, site, key);
    if s.len() == 0 {
        assert(s.map_values(f) =~= Seq::<RowM>::empty());
    } else {
        lemma_sum_rows_of_kept(s.drop_last(), site, key);
        assert(s.map_values(f).drop_last() =~= s.drop_last().map_values(f));
        assert(s.map_values(f).last() == f(s.last()));
    }
}

/// Listing totals: what `build_listing` returns renders, as its total
/// size, exactly the sum of the byte lengths of the rows it lists; with
/// its `ensures`, the total count equals the number of rows and the rows
/// are ordered by non-increasing byte length.
pub proof fn lemma_listing_totals(
    l: Listing,
    entries: Seq<FileEntry>,
    site: Seq<char>,
    key: Seq<char>,
)
    requires
        l.total == l.files@.len(),
        sorted_desc(l.files@),
        models_of(l.files@).to_multiset() == rows_spec(entries, site, key).to_multiset(),
        l.total_size@ == human_size_of(sum_kept(kept_models(entries)) as u64),
    ensures
        l.total_size@ == human_size_of(sum_rows(models_of(l.files@)) as u64),
{
    lemma_sum_rows_permutation(models_of(l.files@), rows_spec(entries, site, key));
    lemma_sum_rows_of_kept(kept_models(entries), site, key);
}

/// Builds the management view from a directory's entries: keeps every file
/// whose metadata is available (and never the key file), renders each with
/// its URL, date, size and delete link, sorts the rows by descending byte
/// length, and totals the count and the aggregate size. Reports the
/// overflow when the aggregate size does not fit in a byte count.
pub fn build_listing(entries: &Vec<FileEntry>, site: &String, key: &String) -> (r: Option<Listing>)
    ensures
        match r {
            Some(l) => {
                &&& sum_kept(kept_models(entries@)) <= u64::MAX
                &&& l.total == l.files@.len()
                &&& sorted_desc(l.files@)
                &&& models_of(l.files@).to_multiset() == rows_spec(
                    entries@,
                    site@,
                    key@,
                ).to_multiset()
                &&& l.total_size@ == human_size_of(sum_kept(kept_models(entries@)) as u64)
            },
            None => sum_kept(kept_models(entries@)) > u64::MAX,
        },
{
    let (rows, total) = match collect_rows(entries, site, key) {
        Some(p) => p,
        None => {
            return None;
        },
    };
    let files = sort_rows_desc(rows);
    let total_size = human_size(total);
    let total_count = files.len();
    Some(Listing { files, total: total_count, total_size })
}

} // verus!
