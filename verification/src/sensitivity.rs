use vstd::prelude::*;

use crate::encoding::enc_chars;
use crate::encoding::enc_opt;
use crate::encoding::enc_project;
use crate::encoding::enc_repo;
use crate::encoding::enc_repo_list;
use crate::encoding::enc_repos;
use crate::encoding::enc_str;
use crate::encoding::enc_str_list;
use crate::encoding::enc_strs;
use crate::encoding::le_bytes;
use crate::model::ProjectView;
use crate::model::RepositoryView;
use crate::model::same_content;

verus! {

// Digest sensitivity rests on the canonical encoding being a prefix code:
// two records whose encodings agree, each followed by anything, have equal
// fields. The bounds below only ask that every length written into an
// eight-byte prefix fits in it, which holds of any record held in memory.

pub open spec fn valid_str(s: Seq<char>) -> bool {
    &&& s.len() < 0x1_0000_0000_0000_0000
    &&& forall|i: int| 0 <= i < s.len() ==> 0 <= (#[trigger] s[i]) as int <= 0x10FFFF
}

pub open spec fn valid_opt(o: Option<Seq<char>>) -> bool {
    match o {
        None => true,
        Some(s) => valid_str(s),
    }
}

pub open spec fn valid_strs(ss: Seq<Seq<char>>) -> bool {
    &&& ss.len() < 0x1_0000_0000_0000_0000
    &&& forall|i: int| 0 <= i < ss.len() ==> valid_str(#[trigger] ss[i])
}

pub open spec fn valid_repo(r: RepositoryView) -> bool {
    valid_str(r.name) && valid_str(r.url) && valid_strs(r.check_sets)
}

pub open spec fn valid_repos(rs: Seq<RepositoryView>) -> bool {
    &&& rs.len() < 0x1_0000_0000_0000_0000
    &&& forall|i: int| 0 <= i < rs.len() ==> valid_repo(#[trigger] rs[i])
}

pub open spec fn valid_project(p: ProjectView) -> bool {
    &&& valid_str(p.name)
    &&& valid_opt(p.display_name)
    &&& valid_str(p.description)
    &&& valid_str(p.category)
    &&& valid_opt(p.home_url)
    &&& valid_opt(p.logo_url)
    &&& valid_opt(p.logo_dark_url)
    &&& valid_opt(p.devstats_url)
    &&& valid_opt(p.accepted_at)
    &&& valid_str(p.maturity)
    &&& valid_repos(p.repositories)
}

spec fn pow256(k: nat) -> nat
    decreases k,
{
    if k == 0 {
        1
    } else {
        256 * pow256((k - 1) as nat)
    }
}

proof fn lemma_pow256_4()
    ensures
        pow256(4) == 0x1_0000_0000,
{
    reveal_with_fuel(pow256, 5);
}

proof fn lemma_pow256_8()
    ensures
        pow256(8) == 0x1_0000_0000_0000_0000,
{
    reveal_with_fuel(pow256, 9);
}

proof fn lemma_concat_parts<T>(a: Seq<T>, b: Seq<T>, x: Seq<T>, y: Seq<T>)
    requires
        a.len() == b.len(),
        a + x == b + y,
    ensures
        a == b,
        x == y,
{
    assert forall|i: int| 0 <= i < a.len() implies a[i] == b[i] by {
        assert((a + x)[i] == a[i]);
        assert((b + y)[i] == b[i]);
    }
    assert(a =~= b);
    assert((a + x).len() == (b + y).len());
    assert(x =~= (a + x).subrange(a.len() as int, (a + x).len() as int));
    assert(y =~= (b + y).subrange(b.len() as int, (b + y).len() as int));
    assert(x =~= y);
}

proof fn lemma_le_bytes_len(n: int, k: nat)
    ensures
        le_bytes(n, k).len() == k,
    decreases k,
{
    if k > 0 {
        lemma_le_bytes_len(n / 256, (k - 1) as nat);
    }
}

proof fn lemma_le_bytes_inj(m: int, n: int, k: nat)
    requires
        0 <= m < pow256(k),
        0 <= n < pow256(k),
        le_bytes(m, k) == le_bytes(n, k),
    ensures
        m == n,
    decreases k,
{
    if k == 0 {
    } else {
        lemma_concat_parts(
            seq![(m % 256) as u8],
            seq![(n % 256) as u8],
            le_bytes(m / 256, (k - 1) as nat),
            le_bytes(n / 256, (k - 1) as nat),
        );
        assert(seq![(m % 256) as u8][0] == (m % 256) as u8);
        assert(seq![(n % 256) as u8][0] == (n % 256) as u8);
        assert(m % 256 == n % 256);
        assert(0 <= m / 256 < pow256((k - 1) as nat)) by (nonlinear_arith)
            requires
                0 <= m < 256 * pow256((k - 1) as nat),
        ;
        assert(0 <= n / 256 < pow256((k - 1) as nat)) by (nonlinear_arith)
            requires
                0 <= n < 256 * pow256((k - 1) as nat),
        ;
        lemma_le_bytes_inj(m / 256, n / 256, (k - 1) as nat);
        assert(m == 256 * (m / 256) + m % 256) by (nonlinear_arith);
        assert(n == 256 * (n / 256) + n % 256) by (nonlinear_arith);
    }
}

proof fn lemma_le_bytes_parts(m: int, n: int, k: nat, x: Seq<u8>, y: Seq<u8>)
    requires
        0 <= m < pow256(k),
        0 <= n < pow256(k),
        le_bytes(m, k) + x == le_bytes(n, k) + y,
    ensures
        m == n,
        x == y,
{
    lemma_le_bytes_len(m, k);
    lemma_le_bytes_len(n, k);
    lemma_concat_parts(le_bytes(m, k), le_bytes(n, k), x, y);
    lemma_le_bytes_inj(m, n, k);
}

proof fn lemma_enc_chars_parts(a: Seq<char>, b: Seq<char>, x: Seq<u8>, y: Seq<u8>)
    requires
        a.len() == b.len(),
        forall|i: int| 0 <= i < a.len() ==> 0 <= (#[trigger] a[i]) as int <= 0x10FFFF,
        forall|i: int| 0 <= i < b.len() ==> 0 <= (#[trigger] b[i]) as int <= 0x10FFFF,
        enc_chars(a) + x == enc_chars(b) + y,
    ensures
        a == b,
        x == y,
    decreases a.len(),
{
    if a.len() == 0 {
        assert(Seq::<u8>::empty() + x =~= x);
        assert(Seq::<u8>::empty() + y =~= y);
        assert(a =~= b);
    } else {
        let ca = a[0] as int;
        let cb = b[0] as int;
        assert(enc_chars(a) + x =~= le_bytes(ca, 4) + (enc_chars(a.skip(1)) + x));
        assert(enc_chars(b) + y =~= le_bytes(cb, 4) + (enc_chars(b.skip(1)) + y));
        lemma_pow256_4();
        lemma_le_bytes_parts(ca, cb, 4, enc_chars(a.skip(1)) + x, enc_chars(b.skip(1)) + y);
        assert(a[0] == b[0]);
        assert forall|i: int| 0 <= i < a.skip(1).len() implies 0 <= (#[trigger] a.skip(1)[i]) as int
            <= 0x10FFFF by {
            assert(a.skip(1)[i] == a[i + 1]);
        }
        assert forall|i: int| 0 <= i < b.skip(1).len() implies 0 <= (#[trigger] b.skip(1)[i]) as int
            <= 0x10FFFF by {
            assert(b.skip(1)[i] == b[i + 1]);
        }
        lemma_enc_chars_parts(a.skip(1), b.skip(1), x, y);
        assert forall|i: int| 0 <= i < a.len() implies a[i] == b[i] by {
            if i > 0 {
                assert(a.skip(1)[i - 1] == a[i]);
                assert(b.skip(1)[i - 1] == b[i]);
            }
        }
        assert(a =~= b);
    }
}

proof fn lemma_enc_str_parts(a: Seq<char>, b: Seq<char>, x: Seq<u8>, y: Seq<u8>)
    requires
        valid_str(a),
        valid_str(b),
        enc_str(a) + x == enc_str(b) + y,
    ensures
        a == b,
        x == y,
{
    lemma_pow256_8();
    assert(enc_str(a) + x =~= le_bytes(a.len() as int, 8) + (enc_chars(a) + x));
    assert(enc_str(b) + y =~= le_bytes(b.len() as int, 8) + (enc_chars(b) + y));
    lemma_le_bytes_parts(a.len() as int, b.len() as int, 8, enc_chars(a) + x, enc_chars(b) + y);
    lemma_enc_chars_parts(a, b, x, y);
}

proof fn lemma_enc_opt_parts(a: Option<Seq<char>>, b: Option<Seq<char>>, x: Seq<u8>, y: Seq<u8>)
    requires
        valid_opt(a),
        valid_opt(b),
        enc_opt(a) + x == enc_opt(b) + y,
    ensures
        a == b,
        x == y,
{
    assert((enc_opt(a) + x)[0] == enc_opt(a)[0]);
    assert((enc_opt(b) + y)[0] == enc_opt(b)[0]);
    match a {
        None => {
            match b {
                None => {
                    lemma_concat_parts(seq![0u8], seq![0u8], x, y);
                },
                Some(sb) => {
                    assert(enc_opt(a)[0] == 0u8);
                    assert(enc_opt(b)[0] == (seq![1u8] + enc_str(sb))[0]);
                    assert(enc_opt(b)[0] == 1u8);
                },
            }
        },
        Some(sa) => {
            match b {
                None => {
                    assert(enc_opt(a)[0] == (seq![1u8] + enc_str(sa))[0]);
                    assert(enc_opt(a)[0] == 1u8);
                    assert(enc_opt(b)[0] == 0u8);
                },
                Some(sb) => {
                    assert(enc_opt(a) + x =~= seq![1u8] + (enc_str(sa) + x));
                    assert(enc_opt(b) + y =~= seq![1u8] + (enc_str(sb) + y));
                    lemma_concat_parts(seq![1u8], seq![1u8], enc_str(sa) + x, enc_str(sb) + y);
                    lemma_enc_str_parts(sa, sb, x, y);
                },
            }
        },
    }
}

proof fn lemma_enc_strs_parts(aa: Seq<Seq<char>>, bb: Seq<Seq<char>>, x: Seq<u8>, y: Seq<u8>)
    requires
        aa.len() == bb.len(),
        forall|i: int| 0 <= i < aa.len() ==> valid_str(#[trigger] aa[i]),
        forall|i: int| 0 <= i < bb.len() ==> valid_str(#[trigger] bb[i]),
        enc_strs(aa) + x == enc_strs(bb) + y,
    ensures
        aa == bb,
        x == y,
    decreases aa.len(),
{
    if aa.len() == 0 {
        assert(Seq::<u8>::empty() + x =~= x);
        assert(Seq::<u8>::empty() + y =~= y);
        assert(aa =~= bb);
    } else {
        assert(enc_strs(aa) + x =~= enc_str(aa[0]) + (enc_strs(aa.skip(1)) + x));
        assert(enc_strs(bb) + y =~= enc_str(bb[0]) + (enc_strs(bb.skip(1)) + y));
        lemma_enc_str_parts(aa[0], bb[0], enc_strs(aa.skip(1)) + x, enc_strs(bb.skip(1)) + y);
        lemma_enc_strs_parts(aa.skip(1), bb.skip(1), x, y);
        assert forall|i: int| 0 <= i < aa.len() implies aa[i] == bb[i] by {
            if i > 0 {
                assert(aa.skip(1)[i - 1] == aa[i]);
                assert(bb.skip(1)[i - 1] == bb[i]);
            }
        }
        assert(aa =~= bb);
    }
}

proof fn lemma_enc_str_list_parts(aa: Seq<Seq<char>>, bb: Seq<Seq<char>>, x: Seq<u8>, y: Seq<u8>)
    requires
        valid_strs(aa),
        valid_strs(bb),
        enc_str_list(aa) + x == enc_str_list(bb) + y,
    ensures
        aa == bb,
        x == y,
{
    lemma_pow256_8();
    assert(enc_str_list(aa) + x =~= le_bytes(aa.len() as int, 8) + (enc_strs(aa) + x));
    assert(enc_str_list(bb) + y =~= le_bytes(bb.len() as int, 8) + (enc_strs(bb) + y));
    lemma_le_bytes_parts(aa.len() as int, bb.len() as int, 8, enc_strs(aa) + x, enc_strs(bb) + y);
    lemma_enc_strs_parts(aa, bb, x, y);
}

proof fn lemma_enc_repo_parts(ra: RepositoryView, rb: RepositoryView, x: Seq<u8>, y: Seq<u8>)
    requires
        valid_repo(ra),
        valid_repo(rb),
        enc_repo(ra) + x == enc_repo(rb) + y,
    ensures
        ra == rb,
        x == y,
{
    assert(enc_repo(ra) + x =~= enc_str(ra.name) + ((enc_str(ra.url) + enc_str_list(
        ra.check_sets,
    )) + x));
    assert(enc_repo(rb) + y =~= enc_str(rb.name) + ((enc_str(rb.url) + enc_str_list(
        rb.check_sets,
    )) + y));
    lemma_enc_str_parts(
        ra.name,
        rb.name,
        (enc_str(ra.url) + enc_str_list(ra.check_sets)) + x,
        (enc_str(rb.url) + enc_str_list(rb.check_sets)) + y,
    );
    assert((enc_str(ra.url) + enc_str_list(ra.check_sets)) + x =~= enc_str(ra.url) + (enc_str_list(
        ra.check_sets,
    ) + x));
    assert((enc_str(rb.url) + enc_str_list(rb.check_sets)) + y =~= enc_str(rb.url) + (enc_str_list(
        rb.check_sets,
    ) + y));
    lemma_enc_str_parts(
        ra.url,
        rb.url,
        enc_str_list(ra.check_sets) + x,
        enc_str_list(rb.check_sets) + y,
    );
    lemma_enc_str_list_parts(ra.check_sets, rb.check_sets, x, y);
    assert(ra =~= rb);
}

proof fn lemma_enc_repos_parts(ras: Seq<RepositoryView>, rbs: Seq<RepositoryView>, x: Seq<u8>, y: Seq<u8>)
    requires
        ras.len() == rbs.len(),
        forall|i: int| 0 <= i < ras.len() ==> valid_repo(#[trigger] ras[i]),
        forall|i: int| 0 <= i < rbs.len() ==> valid_repo(#[trigger] rbs[i]),
        enc_repos(ras) + x == enc_repos(rbs) + y,
    ensures
        ras == rbs,
        x == y,
    decreases ras.len(),
{
    if ras.len() == 0 {
        assert(Seq::<u8>::empty() + x =~= x);
        assert(Seq::<u8>::empty() + y =~= y);
        assert(ras =~= rbs);
    } else {
        assert(enc_repos(ras) + x =~= enc_repo(ras[0]) + (enc_repos(ras.skip(1)) + x));
        assert(enc_repos(rbs) + y =~= enc_repo(rbs[0]) + (enc_repos(rbs.skip(1)) + y));
        lemma_enc_repo_parts(ras[0], rbs[0], enc_repos(ras.skip(1)) + x, enc_repos(rbs.skip(1)) + y);
        lemma_enc_repos_parts(ras.skip(1), rbs.skip(1), x, y);
        assert forall|i: int| 0 <= i < ras.len() implies ras[i] == rbs[i] by {
            if i > 0 {
                assert(ras.skip(1)[i - 1] == ras[i]);
                assert(rbs.skip(1)[i - 1] == rbs[i]);
            }
        }
        assert(ras =~= rbs);
    }
}

proof fn lemma_enc_repo_list_parts(
    ras: Seq<RepositoryView>,
    rbs: Seq<RepositoryView>,
    x: Seq<u8>,
    y: Seq<u8>,
)
    requires
        valid_repos(ras),
        valid_repos(rbs),
        enc_repo_list(ras) + x == enc_repo_list(rbs) + y,
    ensures
        ras == rbs,
        x == y,
{
    lemma_pow256_8();
    assert(enc_repo_list(ras) + x =~= le_bytes(ras.len() as int, 8) + (enc_repos(ras) + x));
    assert(enc_repo_list(rbs) + y =~= le_bytes(rbs.len() as int, 8) + (enc_repos(rbs) + y));
    lemma_le_bytes_parts(ras.len() as int, rbs.len() as int, 8, enc_repos(ras) + x, enc_repos(rbs) + y);
    lemma_enc_repos_parts(ras, rbs, x, y);
}

/// Digest sensitivity: the canonical encoding is injective on a record's
/// content. Two records with equal encodings have equal fields, so changing
/// any field, the order of the repositories included, changes the encoding;
/// the digest then changes whenever the hash of the new encoding does.
pub proof fn lemma_encoding_injective(a: ProjectView, b: ProjectView)
    requires
        valid_project(a),
        valid_project(b),
        enc_project(a) == enc_project(b),
    ensures
        same_content(a, b),
{
    let r2a = enc_opt(a.display_name) + (enc_str(a.description) + (enc_str(a.category) + (enc_opt(
        a.home_url,
    ) + (enc_opt(a.logo_url) + (enc_opt(a.logo_dark_url) + (enc_opt(a.devstats_url) + (enc_opt(
        a.accepted_at,
    ) + (enc_str(a.maturity) + enc_repo_list(a.repositories)))))))));
    let r2b = enc_opt(b.display_name) + (enc_str(b.description) + (enc_str(b.category) + (enc_opt(
        b.home_url,
    ) + (enc_opt(b.logo_url) + (enc_opt(b.logo_dark_url) + (enc_opt(b.devstats_url) + (enc_opt(
        b.accepted_at,
    ) + (enc_str(b.maturity) + enc_repo_list(b.repositories)))))))));
    assert(enc_str(a.name) + r2a == enc_str(b.name) + r2b);
    lemma_enc_str_parts(a.name, b.name, r2a, r2b);
    lemma_enc_opt_parts(
        a.display_name,
        b.display_name,
        enc_str(a.description) + (enc_str(a.category) + (enc_opt(a.home_url) + (enc_opt(a.logo_url)
            + (enc_opt(a.logo_dark_url) + (enc_opt(a.devstats_url) + (enc_opt(a.accepted_at) + (
        enc_str(a.maturity) + enc_repo_list(a.repositories)))))))),
        enc_str(b.description) + (enc_str(b.category) + (enc_opt(b.home_url) + (enc_opt(b.logo_url)
            + (enc_opt(b.logo_dark_url) + (enc_opt(b.devstats_url) + (enc_opt(b.accepted_at) + (
        enc_str(b.maturity) + enc_repo_list(b.repositories)))))))),
    );
    lemma_enc_str_parts(
        a.description,
        b.description,
        enc_str(a.category) + (enc_opt(a.home_url) + (enc_opt(a.logo_url) + (enc_opt(
            a.logo_dark_url,
        ) + (enc_opt(a.devstats_url) + (enc_opt(a.accepted_at) + (enc_str(a.maturity)
            + enc_repo_list(a.repositories))))))),
        enc_str(b.category) + (enc_opt(b.home_url) + (enc_opt(b.logo_url) + (enc_opt(
            b.logo_dark_url,
        ) + (enc_opt(b.devstats_url) + (enc_opt(b.accepted_at) + (enc_str(b.maturity)
            + enc_repo_list(b.repositories))))))),
    );
    lemma_enc_str_parts(
        a.category,
        b.category,
        enc_opt(a.home_url) + (enc_opt(a.logo_url) + (enc_opt(a.logo_dark_url) + (enc_opt(
            a.devstats_url,
        ) + (enc_opt(a.accepted_at) + (enc_str(a.maturity) + enc_repo_list(a.repositories)))))),
        enc_opt(b.home_url) + (enc_opt(b.logo_url) + (enc_opt(b.logo_dark_url) + (enc_opt(
            b.devstats_url,
        ) + (enc_opt(b.accepted_at) + (enc_str(b.maturity) + enc_repo_list(b.repositories)))))),
    );
    lemma_enc_opt_parts(
        a.home_url,
        b.home_url,
        enc_opt(a.logo_url) + (enc_opt(a.logo_dark_url) + (enc_opt(a.devstats_url) + (enc_opt(
            a.accepted_at,
        ) + (enc_str(a.maturity) + enc_repo_list(a.repositories))))),
        enc_opt(b.logo_url) + (enc_opt(b.logo_dark_url) + (enc_opt(b.devstats_url) + (enc_opt(
            b.accepted_at,
        ) + (enc_str(b.maturity) + enc_repo_list(b.repositories))))),
    );
    lemma_enc_opt_parts(
        a.logo_url,
        b.logo_url,
        enc_opt(a.logo_dark_url) + (enc_opt(a.devstats_url) + (enc_opt(a.accepted_at) + (enc_str(
            a.maturity,
        ) + enc_repo_list(a.repositories)))),
        enc_opt(b.logo_dark_url) + (enc_opt(b.devstats_url) + (enc_opt(b.accepted_at) + (enc_str(
            b.maturity,
        ) + enc_repo_list(b.repositories)))),
    );
    lemma_enc_opt_parts(
        a.logo_dark_url,
        b.logo_dark_url,
        enc_opt(a.devstats_url) + (enc_opt(a.accepted_at) + (enc_str(a.maturity) + enc_repo_list(
            a.repositories,
        ))),
        enc_opt(b.devstats_url) + (enc_opt(b.accepted_at) + (enc_str(b.maturity) + enc_repo_list(
            b.repositories,
        ))),
    );
    lemma_enc_opt_parts(
        a.devstats_url,
        b.devstats_url,
        enc_opt(a.accepted_at) + (enc_str(a.maturity) + enc_repo_list(a.repositories)),
        enc_opt(b.accepted_at) + (enc_str(b.maturity) + enc_repo_list(b.repositories)),
    );
    lemma_enc_opt_parts(
        a.accepted_at,
        b.accepted_at,
        enc_str(a.maturity) + enc_repo_list(a.repositories),
        enc_str(b.maturity) + enc_repo_list(b.repositories),
    );
    lemma_enc_str_parts(
        a.maturity,
        b.maturity,
        enc_repo_list(a.repositories),
        enc_repo_list(b.repositories),
    );
    assert(enc_repo_list(a.repositories) + Seq::<u8>::empty() =~= enc_repo_list(a.repositories));
    assert(enc_repo_list(b.repositories) + Seq::<u8>::empty() =~= enc_repo_list(b.repositories));
    lemma_enc_repo_list_parts(
        a.repositories,
        b.repositories,
        Seq::<u8>::empty(),
        Seq::<u8>::empty(),
    );
}

/// Digest sensitivity, stated the way a caller meets it: two records that
/// differ in any content field, the order of the repositories included, have
/// different canonical encodings, and so different digests whenever the hash
/// separates them (a 256-bit hash does, short of an astronomically unlikely
/// collision, which no proof can exclude).
pub proof fn lemma_encoding_sensitive(a: ProjectView, b: ProjectView)
    requires
        valid_project(a),
        valid_project(b),
        !same_content(a, b),
    ensures
        enc_project(a) != enc_project(b),
{
    if enc_project(a) == enc_project(b) {
        lemma_encoding_injective(a, b);
    }
}

} // verus!
