//! What re-pinning guarantees: after `cpp::repin`, every `find_package(<dep>
//! <version> ...)` call that a second pass finds already names the version,
//! so re-pinning the result again changes nothing.
use vstd::prelude::*;
use vstd::string::*;

use crate::text::{is_digit, occurs_at, white_space};

use super::cpp::{find_package_site, ident_char, repin_from, skip_version, skip_ws, version_char};

verus! {

/// A package name and a version that re-pinning keeps intact: the name is
/// not empty and holds no white space; the version is not empty, starts
/// with a digit and holds neither white space nor `)`.
pub open spec fn pin_ok(dep: Seq<char>, version: Seq<char>) -> bool {
    &&& dep.len() > 0
    &&& forall|k: int| 0 <= k < dep.len() ==> !white_space(#[trigger] dep[k])
    &&& version.len() > 0
    &&& is_digit(version[0])
    &&& forall|k: int| 0 <= k < version.len() ==> version_char(#[trigger] version[k])
}

/// `n`, read from `j`, agrees with `s`, read from `i`, for `len` characters.
spec fn agree(n: Seq<char>, j: int, s: Seq<char>, i: int, len: int) -> bool {
    &&& 0 <= i
    &&& 0 <= j
    &&& 0 <= len
    &&& i + len <= s.len()
    &&& j + len <= n.len()
    &&& forall|y: int| i <= y < i + len ==> n[y - i + j] == #[trigger] s[y]
}

/// The first call that a re-pinning pass from `k` finds: where it starts,
/// and the span of its version.
spec fn first_site(s: Seq<char>, dep: Seq<char>, k: int) -> Option<(int, int, int)>
    decreases s.len() - k,
{
    if k < 0 || k >= s.len() {
        None
    } else {
        match find_package_site(s, dep, k) {
            Some((a, b)) => if k < a && a < b && b <= s.len() {
                Some((k, a, b))
            } else {
                first_site(s, dep, k + 1)
            },
            None => first_site(s, dep, k + 1),
        }
    }
}

proof fn lemma_skip_ws(s: Seq<char>, j: int)
    requires
        0 <= j <= s.len(),
    ensures
        j <= skip_ws(s, j) <= s.len(),
        forall|x: int| j <= x < skip_ws(s, j) ==> white_space(#[trigger] s[x]),
        skip_ws(s, j) < s.len() ==> !white_space(s[skip_ws(s, j)]),
    decreases s.len() - j,
{
    if j < s.len() && white_space(s[j]) {
        lemma_skip_ws(s, j + 1);
    }
}

proof fn lemma_skip_ws_at(s: Seq<char>, j: int, e: int)
    requires
        0 <= j <= e <= s.len(),
        forall|x: int| j <= x < e ==> white_space(#[trigger] s[x]),
        e < s.len() ==> !white_space(s[e]),
    ensures
        skip_ws(s, j) == e,
    decreases e - j,
{
    if j < e {
        lemma_skip_ws_at(s, j + 1, e);
    }
}

proof fn lemma_skip_version(s: Seq<char>, j: int)
    requires
        0 <= j <= s.len(),
    ensures
        j <= skip_version(s, j) <= s.len(),
        forall|x: int| j <= x < skip_version(s, j) ==> version_char(#[trigger] s[x]),
        skip_version(s, j) < s.len() ==> !version_char(s[skip_version(s, j)]),
    decreases s.len() - j,
{
    if j < s.len() && version_char(s[j]) {
        lemma_skip_version(s, j + 1);
    }
}

proof fn lemma_skip_version_at(s: Seq<char>, j: int, e: int)
    requires
        0 <= j <= e <= s.len(),
        forall|x: int| j <= x < e ==> version_char(#[trigger] s[x]),
        e < s.len() ==> !version_char(s[e]),
    ensures
        skip_version(s, j) == e,
    decreases e - j,
{
    if j < e {
        lemma_skip_version_at(s, j + 1, e);
    }
}

/// The shape of a call that `find_package_site` finds.
proof fn lemma_site_facts(s: Seq<char>, dep: Seq<char>, i: int)
    requires
        find_package_site(s, dep, i) is Some,
    ensures
        ({
            let (a, b) = find_package_site(s, dep, i)->Some_0;
            &&& 0 <= i
            &&& i + 12 < a < b <= s.len()
            &&& occurs_at(s, "find_package"@, i)
            &&& white_space(s[a - 1])
            &&& is_digit(s[a])
            &&& forall|x: int| a <= x < b ==> version_char(#[trigger] s[x])
            &&& b < s.len() ==> !version_char(s[b])
        }),
{
    reveal_strlit("find_package");
    let kw = "find_package"@;
    assert(kw.len() == 12);
    let p = skip_ws(s, i + 12);
    lemma_skip_ws(s, i + 12);
    let q = skip_ws(s, p + 1);
    lemma_skip_ws(s, p + 1);
    let r = q + dep.len();
    let a = skip_ws(s, r);
    lemma_skip_ws(s, r);
    assert(a > r);
    assert(white_space(s[a - 1]));
    assert(version_char(s[a]));
    lemma_skip_version(s, a);
    assert(skip_version(s, a) == skip_version(s, a + 1));
    lemma_skip_version(s, a + 1);
}

/// `find_package` holds no `f` after its first character.
proof fn lemma_keyword_tail(k: int)
    requires
        1 <= k < 12,
    ensures
        "find_package"@[k] != 'f',
{
    reveal_strlit("find_package");
}

/// A call found in `s` at `i` is found in `n` at `j` when `n` holds the same
/// characters up to the call's version and `version` in its place.
proof fn lemma_site_kept(s: Seq<char>, dep: Seq<char>, version: Seq<char>, i: int, n: Seq<char>, j: int)
    requires
        pin_ok(dep, version),
        find_package_site(s, dep, i) is Some,
        agree(n, j, s, i, find_package_site(s, dep, i)->Some_0.0 - i),
        ({
            let a2 = j + find_package_site(s, dep, i)->Some_0.0 - i;
            &&& a2 + version.len() <= n.len()
            &&& n.subrange(a2, a2 + version.len()) == version
            &&& a2 + version.len() < n.len() ==> !version_char(n[a2 + version.len()])
        }),
        (i == 0) == (j == 0),
        i > 0 ==> ident_char(n[j - 1]) == ident_char(s[i - 1]),
    ensures
        ({
            let a2 = j + find_package_site(s, dep, i)->Some_0.0 - i;
            find_package_site(n, dep, j) == Some((a2, a2 + version.len()))
        }),
{
    lemma_site_facts(s, dep, i);
    reveal_strlit("find_package");
    let kw = "find_package"@;
    let (a, b) = find_package_site(s, dep, i)->Some_0;
    let a2 = j + a - i;
    let d = j - i;
    // The keyword.
    let nk = n.subrange(j, j + 12);
    let sk = s.subrange(i, i + 12);
    assert(nk =~= sk) by {
        assert forall|x: int| 0 <= x < 12 implies #[trigger] nk[x] == sk[x] by {
            assert(n[(i + x) - i + j] == s[i + x]);
        }
    }
    if i > 0 {
        assert(n[j - 1] == n[j - 1]);
    }
    // The opening parenthesis.
    let p = skip_ws(s, i + 12);
    lemma_skip_ws(s, i + 12);
    let q = skip_ws(s, p + 1);
    lemma_skip_ws(s, p + 1);
    let r = q + dep.len();
    lemma_skip_ws(s, r);
    assert(p < q && q < r && r < a);
    assert(skip_ws(n, j + 12) == p + d) by {
        assert forall|x: int| j + 12 <= x < p + d implies white_space(#[trigger] n[x]) by {
            assert(n[(x - d) - i + j] == s[x - d]);
        }
        assert(n[p - i + j] == s[p]);
        lemma_skip_ws_at(n, j + 12, p + d);
    }
    assert(n[p + d] == '(') by {
        assert(n[p - i + j] == s[p]);
    }
    assert(skip_ws(n, p + d + 1) == q + d) by {
        assert forall|x: int| p + d + 1 <= x < q + d implies white_space(#[trigger] n[x]) by {
            assert(n[(x - d) - i + j] == s[x - d]);
        }
        assert(n[q - i + j] == s[q]);
        lemma_skip_ws_at(n, p + d + 1, q + d);
    }
    // The package name and the white space after it.
    let nd = n.subrange(q + d, r + d);
    let sd = s.subrange(q, r);
    assert(nd =~= sd) by {
        assert forall|x: int| 0 <= x < dep.len() implies #[trigger] nd[x] == sd[x] by {
            assert(n[(q + x) - i + j] == s[q + x]);
        }
    }
    assert(n[r + d] == s[r]) by {
        assert(n[r - i + j] == s[r]);
    }
    // The version.
    assert(skip_ws(n, r + d) == a2) by {
        assert forall|x: int| r + d <= x < a2 implies white_space(#[trigger] n[x]) by {
            assert(n[(x - d) - i + j] == s[x - d]);
        }
        assert(n[a2] == n.subrange(a2, a2 + version.len())[0]);
        lemma_skip_ws_at(n, r + d, a2);
    }
    assert(n[a2] == version[0]) by {
        assert(n[a2] == n.subrange(a2, a2 + version.len())[0]);
    }
    assert(skip_version(n, a2) == a2 + version.len()) by {
        assert forall|x: int| a2 <= x < a2 + version.len() implies version_char(#[trigger] n[x]) by {
            assert(n[x] == n.subrange(a2, a2 + version.len())[x - a2]);
        }
        lemma_skip_version_at(n, a2, a2 + version.len());
    }
}

/// No call is found in `n` at `j` when none is found in `s` at `i` and `n`
/// agrees with `s` up to `m`: the end of both texts, or the start of a
/// later call's version, which holds a digit in both.
proof fn lemma_no_new_site(s: Seq<char>, dep: Seq<char>, version: Seq<char>, i: int, n: Seq<char>, j: int, m: int)
    requires
        pin_ok(dep, version),
        find_package_site(s, dep, i) is None,
        0 <= i < m <= s.len(),
        agree(n, j, s, i, m - i),
        m == s.len() ==> n.len() == j + m - i,
        m < s.len() ==> {
            &&& j + m - i < n.len()
            &&& is_digit(n[j + m - i])
            &&& is_digit(s[m])
            &&& white_space(s[m - 1])
            &&& exists|ir: int| i < ir && ir + 12 < m && #[trigger] occurs_at(s, "find_package"@, ir)
        },
        occurs_at(s, "find_package"@, i) ==> {
            &&& (i == 0) == (j == 0)
            &&& i > 0 ==> ident_char(n[j - 1]) == ident_char(s[i - 1])
        },
    ensures
        find_package_site(n, dep, j) is None,
{
    reveal_strlit("find_package");
    let kw = "find_package"@;
    let d = j - i;
    if find_package_site(n, dep, j) is Some {
        // The keyword lies within the agreeing part.
        assert(m - i >= 12) by {
            if m < s.len() {
                let ir = choose|ir: int| i < ir && ir + 12 < m && #[trigger] occurs_at(s, "find_package"@, ir);
            }
        }
        let nk = n.subrange(j, j + 12);
        let sk = s.subrange(i, i + 12);
        assert(nk =~= sk) by {
            assert forall|x: int| 0 <= x < 12 implies #[trigger] nk[x] == sk[x] by {
                assert(n[(i + x) - i + j] == s[i + x]);
            }
        }
        assert(occurs_at(s, kw, i));
        // The opening parenthesis.
        let p = skip_ws(s, i + 12);
        lemma_skip_ws(s, i + 12);
        let pn = skip_ws(n, j + 12);
        lemma_skip_ws(n, j + 12);
        if p >= m {
            assert forall|x: int| j + 12 <= x < m + d implies white_space(#[trigger] n[x]) by {
                assert(n[(x - d) - i + j] == s[x - d]);
            }
            if m < s.len() {
                lemma_skip_ws_at(n, j + 12, m + d);
                assert(n[pn] != '(');
            } else {
                lemma_skip_ws_at(n, j + 12, m + d);
            }
            assert(false);
        }
        assert(pn == p + d) by {
            assert forall|x: int| j + 12 <= x < p + d implies white_space(#[trigger] n[x]) by {
                assert(n[(x - d) - i + j] == s[x - d]);
            }
            assert(n[p - i + j] == s[p]);
            lemma_skip_ws_at(n, j + 12, p + d);
        }
        assert(s[p] == '(') by {
            assert(n[p - i + j] == s[p]);
        }
        // The package name's start.
        let q = skip_ws(s, p + 1);
        lemma_skip_ws(s, p + 1);
        let qn = skip_ws(n, pn + 1);
        lemma_skip_ws(n, pn + 1);
        if q >= m {
            if m < s.len() {
                let ir = choose|ir: int| i < ir && ir + 12 < m && #[trigger] occurs_at(s, "find_package"@, ir);
                assert(s[ir] == 'f') by {
                    assert(s[ir] == s.subrange(ir, ir + 12)[0]);
                }
                if ir < i + 12 {
                    lemma_keyword_tail(ir - i);
                    assert(s[ir] == s.subrange(i, i + 12)[ir - i]);
                } else if ir < p {
                    assert(white_space(s[ir]));
                } else if ir == p {
                } else {
                    assert(white_space(s[ir]));
                }
            } else {
                assert forall|x: int| pn + 1 <= x < m + d implies white_space(#[trigger] n[x]) by {
                    assert(n[(x - d) - i + j] == s[x - d]);
                }
                lemma_skip_ws_at(n, pn + 1, m + d);
            }
            assert(false);
        }
        assert(qn == q + d) by {
            assert forall|x: int| pn + 1 <= x < q + d implies white_space(#[trigger] n[x]) by {
                assert(n[(x - d) - i + j] == s[x - d]);
            }
            assert(n[q - i + j] == s[q]);
            lemma_skip_ws_at(n, pn + 1, q + d);
        }
        // The package name ends before `m`: its characters are no white space.
        let r = q + dep.len();
        if r >= m {
            if m < s.len() {
                assert(n[(m - 1) - i + j] == s[m - 1]);
                assert(n[m - 1 + d] == n.subrange(qn, qn + dep.len())[m - 1 - q]);
                assert(!white_space(dep[m - 1 - q]));
            }
            assert(false);
        }
        let sd = s.subrange(q, r);
        let nd = n.subrange(qn, qn + dep.len());
        assert(sd =~= nd) by {
            assert forall|x: int| 0 <= x < dep.len() implies #[trigger] sd[x] == nd[x] by {
                assert(n[(q + x) - i + j] == s[q + x]);
            }
        }
        assert(white_space(s[r])) by {
            assert(n[r - i + j] == s[r]);
        }
        // The version's start.
        let a = skip_ws(s, r);
        lemma_skip_ws(s, r);
        let an = skip_ws(n, r + d);
        lemma_skip_ws(n, r + d);
        if a >= m {
            if m == s.len() {
                assert forall|x: int| r + d <= x < m + d implies white_space(#[trigger] n[x]) by {
                    assert(n[(x - d) - i + j] == s[x - d]);
                }
                lemma_skip_ws_at(n, r + d, m + d);
                assert(false);
            } else {
                assert(a == m);
                assert(find_package_site(s, dep, i) is Some);
                assert(false);
            }
        }
        assert(an == a + d) by {
            assert forall|x: int| r + d <= x < a + d implies white_space(#[trigger] n[x]) by {
                assert(n[(x - d) - i + j] == s[x - d]);
            }
            assert(n[a - i + j] == s[a]);
            lemma_skip_ws_at(n, r + d, a + d);
        }
        assert(is_digit(s[a])) by {
            assert(n[a - i + j] == s[a]);
        }
        assert(find_package_site(s, dep, i) is Some);
        assert(false);
    }
}

/// A pass from `k` copies the text up to the first call it finds, writes
/// `version` in place of that call's version and goes on after it.
proof fn lemma_out_prefix(s: Seq<char>, dep: Seq<char>, version: Seq<char>, k: int)
    requires
        0 <= k <= s.len(),
    ensures
        match first_site(s, dep, k) {
            None => repin_from(s, dep, version, k).0 == s.subrange(k, s.len() as int),
            Some((ir, m, b)) => {
                &&& k <= ir
                &&& ir + 12 < m < b <= s.len()
                &&& find_package_site(s, dep, ir) == Some((m, b))
                &&& repin_from(s, dep, version, k).0 == s.subrange(k, m) + version + repin_from(s, dep, version, b).0
            },
        },
    decreases s.len() - k,
{
    if k < s.len() {
        match find_package_site(s, dep, k) {
            Some((a, b)) => {
                lemma_site_facts(s, dep, k);
                if s.subrange(a, b) == version {
                    assert(s.subrange(k, b) =~= s.subrange(k, a) + s.subrange(a, b));
                    assert(s.subrange(k, b) + repin_from(s, dep, version, b).0
                        =~= s.subrange(k, a) + version + repin_from(s, dep, version, b).0);
                }
            },
            None => {
                lemma_out_prefix(s, dep, version, k + 1);
                match first_site(s, dep, k + 1) {
                    None => {
                        assert(seq![s[k]] + s.subrange(k + 1, s.len() as int) =~= s.subrange(k, s.len() as int));
                    },
                    Some((ir, m, b)) => {
                        assert(seq![s[k]] + (s.subrange(k + 1, m) + version + repin_from(s, dep, version, b).0)
                            =~= s.subrange(k, m) + version + repin_from(s, dep, version, b).0);
                    },
                }
            },
        }
    } else {
        assert(s.subrange(k, s.len() as int) =~= Seq::<char>::empty());
    }
}

/// A pass from `k` that changes nothing gives the text back unchanged.
proof fn lemma_unchanged(s: Seq<char>, dep: Seq<char>, version: Seq<char>, k: int)
    requires
        0 <= k <= s.len(),
        repin_from(s, dep, version, k).1 == 0,
    ensures
        repin_from(s, dep, version, k).0 == s.subrange(k, s.len() as int),
    decreases s.len() - k,
{
    if k < s.len() {
        match find_package_site(s, dep, k) {
            Some((a, b)) => {
                lemma_site_facts(s, dep, k);
                lemma_unchanged(s, dep, version, b);
                assert(s.subrange(k, b) + s.subrange(b, s.len() as int) =~= s.subrange(k, s.len() as int));
            },
            None => {
                lemma_unchanged(s, dep, version, k + 1);
                assert(seq![s[k]] + s.subrange(k + 1, s.len() as int) =~= s.subrange(k, s.len() as int));
            },
        }
    } else {
        assert(s.subrange(k, s.len() as int) =~= Seq::<char>::empty());
    }
}

/// One step of a second pass, where the first pass found a call at `i`:
/// the second pass finds it too, already naming `version`, and goes on
/// where the first one went on.
proof fn lemma_step_site(s: Seq<char>, dep: Seq<char>, version: Seq<char>, i: int, pre: Seq<char>)
    requires
        pin_ok(dep, version),
        0 <= i < s.len(),
        find_package_site(s, dep, i) is Some,
        (i == 0) == (pre.len() == 0),
        i > 0 ==> ident_char(pre.last()) == ident_char(s[i - 1]),
    ensures
        ({
            let (a, b) = find_package_site(s, dep, i)->Some_0;
            let pre2 = pre + s.subrange(i, a) + version;
            let n = pre + repin_from(s, dep, version, i).0;
            &&& n == pre2 + repin_from(s, dep, version, b).0
            &&& repin_from(n, dep, version, pre.len() as int).1 == repin_from(n, dep, version, pre2.len() as int).1
            &&& !occurs_at(s, "find_package"@, b)
        }),
{
    reveal_strlit("find_package");
    lemma_site_facts(s, dep, i);
    lemma_out_prefix(s, dep, version, i);
    let (a, b) = find_package_site(s, dep, i)->Some_0;
    let out = repin_from(s, dep, version, i).0;
    let n = pre + out;
    let j = pre.len() as int;
    let rest = repin_from(s, dep, version, b).0;
    let pre2 = pre + s.subrange(i, a) + version;
    assert(n =~= pre2 + rest);
    let a2 = j + a - i;
    assert(agree(n, j, s, i, a - i)) by {
        assert forall|y: int| i <= y < i + (a - i) implies n[y - i + j] == #[trigger] s[y] by {
            assert(n[y - i + j] == out[y - i]);
            assert(out[y - i] == s.subrange(i, a)[y - i]);
        }
    }
    let nv = n.subrange(a2, a2 + version.len());
    assert(nv =~= version) by {
        assert forall|x: int| 0 <= x < version.len() implies #[trigger] nv[x] == version[x] by {
            assert(n[a2 + x] == out[a - i + x]);
        }
    }
    lemma_out_prefix(s, dep, version, b);
    if a2 + version.len() < n.len() {
        assert(b < s.len()) by {
            if b == s.len() {
                assert(rest.len() == 0);
            }
        }
        match first_site(s, dep, b) {
            None => {
                assert(rest[0] == s[b]);
            },
            Some((ir, m, bb)) => {
                assert(rest[0] == s.subrange(b, m)[0]);
            },
        }
        assert(n[a2 + version.len()] == rest[0]);
    }
    if i > 0 {
        assert(n[j - 1] == pre.last());
    }
    lemma_site_kept(s, dep, version, i, n, j);
    if occurs_at(s, "find_package"@, b) {
        assert(s[b] == s.subrange(b, b + 12)[0]);
        assert(version_char(s[b]));
    }
}

/// One step of a second pass, where the first pass found no call at `i`:
/// the second pass finds none there either.
proof fn lemma_step_plain(s: Seq<char>, dep: Seq<char>, version: Seq<char>, i: int, pre: Seq<char>)
    requires
        pin_ok(dep, version),
        0 <= i < s.len(),
        find_package_site(s, dep, i) is None,
        occurs_at(s, "find_package"@, i) ==> {
            &&& (i == 0) == (pre.len() == 0)
            &&& i > 0 ==> ident_char(pre.last()) == ident_char(s[i - 1])
        },
    ensures
        ({
            let n = pre + repin_from(s, dep, version, i).0;
            &&& n == pre.push(s[i]) + repin_from(s, dep, version, i + 1).0
            &&& repin_from(n, dep, version, pre.len() as int).1 == repin_from(n, dep, version, pre.len() + 1int).1
        }),
{
    reveal_strlit("find_package");
    let out = repin_from(s, dep, version, i).0;
    let n = pre + out;
    let j = pre.len() as int;
    let rest = repin_from(s, dep, version, i + 1).0;
    let pre2 = pre.push(s[i]);
    assert(n =~= pre2 + rest);
    lemma_out_prefix(s, dep, version, i + 1);
    let m = match first_site(s, dep, i + 1) {
        None => s.len() as int,
        Some((ir, m, bb)) => m,
    };
    assert(agree(n, j, s, i, m - i)) by {
        assert forall|y: int| i <= y < i + (m - i) implies n[y - i + j] == #[trigger] s[y] by {
            if y == i {
                assert(n[j] == pre2[j]);
            } else {
                assert(n[y - i + j] == rest[y - i - 1]);
                match first_site(s, dep, i + 1) {
                    None => {},
                    Some((ir, mm, bb)) => {
                        assert(rest[y - i - 1] == s.subrange(i + 1, mm)[y - i - 1]);
                    },
                }
            }
        }
    }
    match first_site(s, dep, i + 1) {
        None => {},
        Some((ir, mm, bb)) => {
            lemma_site_facts(s, dep, ir);
            assert(n[j + mm - i] == rest[mm - i - 1]);
            assert(rest[mm - i - 1] == version[0]);
            assert(occurs_at(s, "find_package"@, ir));
        },
    }
    if i > 0 && occurs_at(s, "find_package"@, i) {
        assert(n[j - 1] == pre.last());
    }
    lemma_no_new_site(s, dep, version, i, n, j, m);
}

/// A second pass over `pre` followed by the output of a first pass from
/// `i` finds only calls that already name `version`.
proof fn lemma_rescan(s: Seq<char>, dep: Seq<char>, version: Seq<char>, i: int, pre: Seq<char>)
    requires
        pin_ok(dep, version),
        0 <= i <= s.len(),
        occurs_at(s, "find_package"@, i) ==> {
            &&& (i == 0) == (pre.len() == 0)
            &&& i > 0 ==> ident_char(pre.last()) == ident_char(s[i - 1])
        },
    ensures
        repin_from(pre + repin_from(s, dep, version, i).0, dep, version, pre.len() as int).1 == 0,
    decreases s.len() - i,
{
    if i == s.len() {
        assert(repin_from(s, dep, version, i).0.len() == 0);
        return;
    }
    match find_package_site(s, dep, i) {
        Some((a, b)) => {
            lemma_site_facts(s, dep, i);
            lemma_step_site(s, dep, version, i, pre);
            lemma_rescan(s, dep, version, b, pre + s.subrange(i, a) + version);
        },
        None => {
            lemma_step_plain(s, dep, version, i, pre);
            let pre2 = pre.push(s[i]);
            assert(pre2.last() == s[i]);
            lemma_rescan(s, dep, version, i + 1, pre2);
        },
    }
}

/// Re-pinning is idempotent: once every `find_package(<dep> <version> ...)`
/// call has been re-pinned to `version`, re-pinning the result to the same
/// version changes nothing (for a package name without white space and a
/// version that starts with a digit and holds no white space or `)`).
pub proof fn lemma_repin_idempotent(text: Seq<char>, dep: Seq<char>, version: Seq<char>)
    requires
        pin_ok(dep, version),
    ensures
        repin_from(repin_from(text, dep, version, 0).0, dep, version, 0)
            == (repin_from(text, dep, version, 0).0, 0nat),
{
    let once = repin_from(text, dep, version, 0).0;
    lemma_rescan(text, dep, version, 0, Seq::empty());
    assert(Seq::<char>::empty() + once =~= once);
    lemma_unchanged(once, dep, version, 0);
    assert(once.subrange(0, once.len() as int) =~= once);
}

} // verus!
