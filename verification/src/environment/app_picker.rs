//! The app picker's decisions: which directory entries are apps, in what
//! order the apps are listed, and what the user is told when there are
//! none.
use vstd::prelude::*;
use vstd::string::StringExecFns;
use vstd::utf8::{decode_utf8, encode_utf8};
use crate::gdb::bytes::bytes_equal;

verus! {

/// Whether two strings are equal.
pub fn str_equal(a: &str, b: &str) -> (r: bool)
    ensures
        r == (a@ == b@),
{
    let r = bytes_equal(a.as_bytes(), b.as_bytes());
    proof {
        broadcast use vstd::utf8::encode_utf8_decode_utf8;

        if encode_utf8(a@) == encode_utf8(b@) {
            assert(decode_utf8(encode_utf8(a@)) == decode_utf8(encode_utf8(b@)));
        }
    }
    r
}

/// The extensions of app bundles and app archives.
pub open spec fn is_app_extension(extension: Seq<char>) -> bool {
    extension == "app"@ || extension == "ipa"@
}

/// Whether a directory entry with this file extension is an app that the
/// picker lists: `.app` bundles and `.ipa` archives.
pub fn is_app_bundle_extension(extension: Option<&str>) -> (listed: bool)
    ensures
        listed == (extension matches Some(e) && is_app_extension(e@)),
{
    match extension {
        None => false,
        Some(e) => str_equal(e, "app") || str_equal(e, "ipa"),
    }
}

/// What looking for apps found.
pub enum AppScan<T> {
    /// The apps directory does not exist.
    NoDirectory,
    /// The directory could not be read; the error's message.
    Failed(String),
    /// The apps found.
    Found(Vec<T>),
}

/// The message for a missing apps directory.
pub open spec fn missing_directory_message(apps_dir: Seq<char>) -> Seq<char> {
    "🔥 ¡Ojo bro! No existe la carpeta "@ + apps_dir
        + ". Creala e inyectale tus .ipa/.app de Talking Friends."@
}

/// The message for an apps directory that could not be read.
pub open spec fn scan_error_message(apps_dir: Seq<char>, error: Seq<char>) -> Seq<char> {
    "Error escaneando "@ + apps_dir + ": "@ + error + "."@
}

/// The message for an apps directory without apps.
pub open spec fn no_apps_message(apps_dir: Seq<char>) -> Seq<char> {
    "💀 No hay apps ni juegos en "@ + apps_dir + ". ¡Meté unos binarios ahí!"@
}

/// The apps to offer, or the message to show instead: the directory is
/// missing, could not be read, or holds no app.
pub fn app_list<T>(apps_dir: &str, scan: AppScan<T>) -> (r: Result<Vec<T>, String>)
    ensures
        match scan {
            AppScan::NoDirectory => r matches Err(m) && m@ == missing_directory_message(apps_dir@),
            AppScan::Failed(e) => r matches Err(m) && m@ == scan_error_message(apps_dir@, e@),
            AppScan::Found(apps) => if apps@.len() == 0 {
                r matches Err(m) && m@ == no_apps_message(apps_dir@)
            } else {
                r matches Ok(v) && v@ == apps@
            },
        },
{
    match scan {
        AppScan::NoDirectory => {
            let mut m = String::from_str("🔥 ¡Ojo bro! No existe la carpeta ");
            m.append(apps_dir);
            m.append(". Creala e inyectale tus .ipa/.app de Talking Friends.");
            Err(m)
        },
        AppScan::Failed(e) => {
            let mut m = String::from_str("Error escaneando ");
            m.append(apps_dir);
            m.append(": ");
            m.append(e.as_str());
            m.append(".");
            Err(m)
        },
        AppScan::Found(apps) => {
            if apps.len() == 0 {
                let mut m = String::from_str("💀 No hay apps ni juegos en ");
                m.append(apps_dir);
                m.append(". ¡Meté unos binarios ahí!");
                Err(m)
            } else {
                Ok(apps)
            }
        },
    }
}

/// Byte-wise lexicographic order: how `String`s and byte strings compare.
pub open spec fn lex_lt(a: Seq<u8>, b: Seq<u8>) -> bool
    decreases a.len(),
{
    if a.len() == 0 {
        b.len() > 0
    } else if b.len() == 0 {
        false
    } else if a[0] < b[0] {
        true
    } else if a[0] > b[0] {
        false
    } else {
        lex_lt(a.drop_first(), b.drop_first())
    }
}

/// The lexicographic order is a strict total order.
proof fn lemma_lex_order(a: Seq<u8>, b: Seq<u8>, c: Seq<u8>)
    ensures
        !lex_lt(a, a),
        lex_lt(a, b) ==> !lex_lt(b, a),
        a == b || lex_lt(a, b) || lex_lt(b, a),
        lex_lt(a, b) && lex_lt(b, c) ==> lex_lt(a, c),
    decreases a.len(),
{
    if a.len() > 0 && b.len() > 0 && c.len() > 0 {
        lemma_lex_order(a.drop_first(), b.drop_first(), c.drop_first());
        if a[0] == b[0] && a.drop_first() == b.drop_first() {
            assert forall|k: int| 0 <= k < a.len() implies a[k] == b[k] by {
                if k > 0 {
                    assert(a[k] == a.drop_first()[k - 1]);
                    assert(b[k] == b.drop_first()[k - 1]);
                }
            }
            assert(a =~= b);
        }
    } else if a.len() > 0 && b.len() > 0 {
        lemma_lex_order(a.drop_first(), b.drop_first(), c);
        if a[0] == b[0] && a.drop_first() == b.drop_first() {
            assert forall|k: int| 0 <= k < a.len() implies a[k] == b[k] by {
                if k > 0 {
                    assert(a[k] == a.drop_first()[k - 1]);
                    assert(b[k] == b.drop_first()[k - 1]);
                }
            }
            assert(a =~= b);
        }
    } else if a.len() > 0 && c.len() > 0 {
        lemma_lex_order(a.drop_first(), b, c.drop_first());
    } else if a.len() > 0 {
        lemma_lex_order(a.drop_first(), b, c);
    } else if b.len() == 0 {
        assert(a =~= b);
    }
}

/// Byte-wise lexicographic comparison.
pub fn bytes_less(a: &[u8], b: &[u8]) -> (r: bool)
    ensures
        r == lex_lt(a@, b@),
{
    let mut i: usize = 0;
    assert(a@.subrange(0, a@.len() as int) =~= a@);
    assert(b@.subrange(0, b@.len() as int) =~= b@);
    while i < a.len() && i < b.len()
        invariant
            i <= a@.len(),
            i <= b@.len(),
            forall|k: int| 0 <= k < i ==> a@[k] == b@[k],
            lex_lt(a@, b@) == lex_lt(a@.subrange(i as int, a@.len() as int), b@.subrange(i as int, b@.len() as int)),
        decreases a@.len() - i,
    {
        if a[i] < b[i] {
            return true;
        }
        if a[i] > b[i] {
            return false;
        }
        proof {
            let sa = a@.subrange(i as int, a@.len() as int);
            let sb = b@.subrange(i as int, b@.len() as int);
            assert(sa.drop_first() =~= a@.subrange(i as int + 1, a@.len() as int));
            assert(sb.drop_first() =~= b@.subrange(i as int + 1, b@.len() as int));
        }
        i = i + 1;
    }
    i < b.len()
}

/// The upper-case form of a text, by `str::to_uppercase` (full Unicode case
/// mapping; the result depends on the text alone).
pub uninterp spec fn uppercase(s: Seq<char>) -> Seq<char>;

/// `str::to_uppercase`.
#[verifier::external_body]
fn to_uppercase(s: &str) -> (u: String)
    ensures
        u@ == uppercase(s@),
{
    s.to_uppercase()
}

/// The key by which apps are listed: the UTF-8 bytes of the upper-case
/// display name.
pub open spec fn listing_key(display_name: Seq<char>) -> Seq<u8> {
    encode_utf8(uppercase(display_name))
}

/// `order` lists the indices of `keys` once each, by non-decreasing key,
/// and indices with equal keys in increasing order (a stable sort).
pub open spec fn is_stable_order(keys: Seq<Seq<u8>>, order: Seq<usize>) -> bool {
    &&& order.len() == keys.len()
    &&& forall|i: int| 0 <= i < order.len() ==> #[trigger] order[i] < keys.len()
    &&& forall|i: int, j: int| 0 <= i < j < order.len() ==> order[i] != order[j]
    &&& forall|i: int, j: int|
        0 <= i < j < order.len() ==> !lex_lt(keys[order[j] as int], keys[order[i] as int])
    &&& forall|i: int, j: int|
        0 <= i < j < order.len() && keys[order[i] as int] == keys[order[j] as int] ==> order[i]
            < order[j]
}

/// The order in which keys are listed: a stable sort by key.
pub fn stable_order(keys: &Vec<Vec<u8>>) -> (order: Vec<usize>)
    ensures
        is_stable_order(keys@.map_values(|k: Vec<u8>| k@), order@),
{
    let ghost ks = keys@.map_values(|k: Vec<u8>| k@);
    let n = keys.len();
    let mut order: Vec<usize> = Vec::new();
    let mut i: usize = 0;
    while i < n
        invariant
            i <= n,
            n == keys@.len(),
            ks == keys@.map_values(|k: Vec<u8>| k@),
            order@.len() == i,
            forall|p: int| 0 <= p < order@.len() ==> #[trigger] order@[p] < i,
            forall|p: int, q: int| 0 <= p < q < order@.len() ==> order@[p] != order@[q],
            forall|p: int, q: int|
                0 <= p < q < order@.len() ==> !lex_lt(ks[order@[q] as int], ks[order@[p] as int]),
            forall|p: int, q: int|
                0 <= p < q < order@.len() && ks[order@[p] as int] == ks[order@[q] as int]
                    ==> order@[p] < order@[q],
        decreases n - i,
    {
        let key = &keys[i];
        let mut j: usize = order.len();
        while j > 0 && bytes_less(key.as_slice(), keys[order[j - 1]].as_slice())
            invariant
                j <= order@.len(),
                i < n,
                n == keys@.len(),
                ks == keys@.map_values(|k: Vec<u8>| k@),
                key@ == ks[i as int],
                forall|p: int| 0 <= p < order@.len() ==> #[trigger] order@[p] < i,
                forall|q: int| j <= q < order@.len() ==> lex_lt(ks[i as int], #[trigger] ks[order@[q] as int]),
            decreases j,
        {
            j = j - 1;
        }
        proof {
            assert forall|q: int| j <= q < order@.len() implies !lex_lt(#[trigger] ks[order@[q] as int], ks[i as int]) by {
                lemma_lex_order(ks[i as int], ks[order@[q] as int], ks[i as int]);
            }
            if j > 0 {
                assert(!lex_lt(ks[i as int], ks[order@[j - 1] as int]));
                assert forall|p: int| 0 <= p < j implies !lex_lt(ks[i as int], #[trigger] ks[order@[p] as int]) by {
                    if p < j - 1 {
                        lemma_lex_order(ks[i as int], ks[order@[p] as int], ks[order@[j - 1] as int]);
                        lemma_lex_order(ks[order@[p] as int], ks[order@[j - 1] as int], ks[i as int]);
                        lemma_lex_order(ks[order@[j - 1] as int], ks[order@[p] as int], ks[i as int]);
                        lemma_lex_order(ks[i as int], ks[order@[j - 1] as int], ks[order@[p] as int]);
                    }
                }
            }
            assert forall|q: int| j <= q < order@.len() implies ks[order@[q] as int] != ks[i as int] by {
                lemma_lex_order(ks[i as int], ks[i as int], ks[i as int]);
            }
        }
        let ghost before = order@;
        order.insert(j, i);
        proof {
            let after = order@;
            assert forall|p: int| 0 <= p < after.len() implies #[trigger] after[p] < i + 1 by {
                if p < j {
                    assert(after[p] == before[p]);
                } else if p > j {
                    assert(after[p] == before[p - 1]);
                }
            }
            assert forall|p: int, q: int| 0 <= p < q < after.len() implies after[p] != after[q] by {
                if p < j {
                    assert(after[p] == before[p]);
                } else if p > j {
                    assert(after[p] == before[p - 1]);
                }
                if q < j {
                    assert(after[q] == before[q]);
                } else if q > j {
                    assert(after[q] == before[q - 1]);
                }
            }
            assert forall|p: int, q: int| 0 <= p < q < after.len() implies !lex_lt(
                ks[after[q] as int],
                ks[after[p] as int],
            ) && (ks[after[p] as int] == ks[after[q] as int] ==> after[p] < after[q]) by {
                if q < j {
                    assert(after[p] == before[p] && after[q] == before[q]);
                } else if q == j {
                    assert(after[p] == before[p]);
                } else if p < j {
                    assert(after[p] == before[p] && after[q] == before[q - 1]);
                    lemma_lex_order(ks[before[p] as int], ks[i as int], ks[before[q - 1] as int]);
                    lemma_lex_order(ks[before[q - 1] as int], ks[i as int], ks[before[p] as int]);
                    lemma_lex_order(ks[i as int], ks[before[q - 1] as int], ks[before[p] as int]);
                    lemma_lex_order(ks[before[p] as int], ks[before[q - 1] as int], ks[i as int]);
                } else if p == j {
                    assert(after[q] == before[q - 1]);
                } else {
                    assert(after[p] == before[p - 1] && after[q] == before[q - 1]);
                }
            }
        }
        i = i + 1;
    }
    order
}

/// The order in which the picker lists apps with these display names: by
/// upper-case name, apps with the same upper-case name as found.
pub fn listing_order(display_names: &Vec<String>) -> (order: Vec<usize>)
    ensures
        is_stable_order(display_names@.map_values(|n: String| listing_key(n@)), order@),
{
    let mut keys: Vec<Vec<u8>> = Vec::new();
    let mut i: usize = 0;
    while i < display_names.len()
        invariant
            i <= display_names@.len(),
            keys@.len() == i,
            forall|k: int| 0 <= k < i ==> #[trigger] keys@[k]@ == listing_key(display_names@[k]@),
        decreases display_names@.len() - i,
    {
        let upper = to_uppercase(display_names[i].as_str());
        keys.push(vstd::slice::slice_to_vec(upper.as_str().as_bytes()));
        i = i + 1;
    }
    assert(keys@.map_values(|k: Vec<u8>| k@) =~= display_names@.map_values(|n: String| listing_key(n@)));
    stable_order(&keys)
}


/// What the listing order compares: after a common beginning of `k`
/// bytes, the first differing byte decides, and a name that ends there
/// comes before every longer one.
pub proof fn lemma_lex_lt_meaning(a: Seq<u8>, b: Seq<u8>, k: int)
    requires
        0 <= k <= a.len(),
        k <= b.len(),
        a.subrange(0, k) == b.subrange(0, k),
    ensures
        k < a.len() && k < b.len() && a[k] < b[k] ==> lex_lt(a, b),
        k < a.len() && k < b.len() && a[k] > b[k] ==> !lex_lt(a, b),
        k == a.len() && k < b.len() ==> lex_lt(a, b),
        k == b.len() ==> !lex_lt(a, b),
    decreases k,
{
    if k > 0 {
        assert(a[0] == a.subrange(0, k)[0]);
        assert(b[0] == b.subrange(0, k)[0]);
        assert(a.drop_first().subrange(0, k - 1) =~= b.drop_first().subrange(0, k - 1)) by {
            assert forall|i: int| 0 <= i < k - 1 implies a.drop_first()[i] == b.drop_first()[i] by {
                assert(a.subrange(0, k)[i + 1] == b.subrange(0, k)[i + 1]);
                assert(a.subrange(0, k)[i + 1] == a[i + 1]);
                assert(b.subrange(0, k)[i + 1] == b[i + 1]);
            }
        }
        lemma_lex_lt_meaning(a.drop_first(), b.drop_first(), k - 1);
    }
}

} // verus!
