use vstd::prelude::*;

use crate::model::Project;
use crate::model::ProjectView;
use crate::model::Repository;
use crate::model::RepositoryView;
use crate::model::opt_view;

verus! {

// Canonical byte encoding of a project record, used for change detection.
// Every variable-length part is preceded by its length, so the encoding of a
// record is a prefix code: no encoding is a proper prefix of another. That is
// what makes the digest sensitive to every field, including repository order.
// The digest field itself is never encoded.

/// The `k` least significant base-256 digits of `n`, least significant first.
pub open spec fn le_bytes(n: int, k: nat) -> Seq<u8>
    decreases k,
{
    if k == 0 {
        Seq::empty()
    } else {
        seq![(n % 256) as u8] + le_bytes(n / 256, (k - 1) as nat)
    }
}

/// Each character as its code point in four bytes.
pub open spec fn enc_chars(s: Seq<char>) -> Seq<u8>
    decreases s.len(),
{
    if s.len() == 0 {
        Seq::empty()
    } else {
        le_bytes(s[0] as int, 4) + enc_chars(s.skip(1))
    }
}

/// A string: its character count in eight bytes, then its characters.
pub open spec fn enc_str(s: Seq<char>) -> Seq<u8> {
    le_bytes(s.len() as int, 8) + enc_chars(s)
}

/// An optional string: a presence tag, then the string if present.
pub open spec fn enc_opt(o: Option<Seq<char>>) -> Seq<u8> {
    match o {
        None => seq![0u8],
        Some(s) => seq![1u8] + enc_str(s),
    }
}

pub open spec fn enc_strs(ss: Seq<Seq<char>>) -> Seq<u8>
    decreases ss.len(),
{
    if ss.len() == 0 {
        Seq::empty()
    } else {
        enc_str(ss[0]) + enc_strs(ss.skip(1))
    }
}

/// A list of strings: its length in eight bytes, then each string in order.
pub open spec fn enc_str_list(ss: Seq<Seq<char>>) -> Seq<u8> {
    le_bytes(ss.len() as int, 8) + enc_strs(ss)
}

/// A repository: name, url, then its check sets in order.
pub open spec fn enc_repo(r: RepositoryView) -> Seq<u8> {
    enc_str(r.name) + (enc_str(r.url) + enc_str_list(r.check_sets))
}

pub open spec fn enc_repos(rs: Seq<RepositoryView>) -> Seq<u8>
    decreases rs.len(),
{
    if rs.len() == 0 {
        Seq::empty()
    } else {
        enc_repo(rs[0]) + enc_repos(rs.skip(1))
    }
}

/// A list of repositories: its length in eight bytes, then each repository.
pub open spec fn enc_repo_list(rs: Seq<RepositoryView>) -> Seq<u8> {
    le_bytes(rs.len() as int, 8) + enc_repos(rs)
}

/// The whole record, every field but the digest, in declaration order.
pub open spec fn enc_project(p: ProjectView) -> Seq<u8> {
    enc_str(p.name) + (enc_opt(p.display_name) + (enc_str(p.description) + (enc_str(p.category)
        + (enc_opt(p.home_url) + (enc_opt(p.logo_url) + (enc_opt(p.logo_dark_url)
        + (enc_opt(p.devstats_url) + (enc_opt(p.accepted_at) + (enc_str(p.maturity)
        + enc_repo_list(p.repositories))))))))))
}

proof fn lemma_enc_chars_push(s: Seq<char>, c: char)
    ensures
        enc_chars(s.push(c)) == enc_chars(s) + le_bytes(c as int, 4),
    decreases s.len(),
{
    if s.len() == 0 {
        assert(s.push(c)[0] == c);
        assert(s.push(c).skip(1) =~= Seq::<char>::empty());
        assert(enc_chars(s.push(c).skip(1)) == Seq::<u8>::empty());
        assert(enc_chars(s) == Seq::<u8>::empty());
        assert(enc_chars(s.push(c)) =~= enc_chars(s) + le_bytes(c as int, 4));
    } else {
        assert(s.push(c).skip(1) =~= s.skip(1).push(c));
        lemma_enc_chars_push(s.skip(1), c);
        assert(enc_chars(s.push(c)) =~= enc_chars(s) + le_bytes(c as int, 4));
    }
}

proof fn lemma_enc_strs_push(ss: Seq<Seq<char>>, s: Seq<char>)
    ensures
        enc_strs(ss.push(s)) == enc_strs(ss) + enc_str(s),
    decreases ss.len(),
{
    if ss.len() == 0 {
        assert(ss.push(s)[0] == s);
        assert(ss.push(s).skip(1) =~= Seq::<Seq<char>>::empty());
        assert(enc_strs(ss.push(s).skip(1)) == Seq::<u8>::empty());
        assert(enc_strs(ss) == Seq::<u8>::empty());
        assert(enc_strs(ss.push(s)) =~= enc_strs(ss) + enc_str(s));
    } else {
        assert(ss.push(s).skip(1) =~= ss.skip(1).push(s));
        lemma_enc_strs_push(ss.skip(1), s);
        assert(enc_strs(ss.push(s)) =~= enc_strs(ss) + enc_str(s));
    }
}

proof fn lemma_enc_repos_push(rs: Seq<RepositoryView>, r: RepositoryView)
    ensures
        enc_repos(rs.push(r)) == enc_repos(rs) + enc_repo(r),
    decreases rs.len(),
{
    if rs.len() == 0 {
        assert(rs.push(r)[0] == r);
        assert(rs.push(r).skip(1) =~= Seq::<RepositoryView>::empty());
        assert(enc_repos(rs.push(r).skip(1)) == Seq::<u8>::empty());
        assert(enc_repos(rs) == Seq::<u8>::empty());
        assert(enc_repos(rs.push(r)) =~= enc_repos(rs) + enc_repo(r));
    } else {
        assert(rs.push(r).skip(1) =~= rs.skip(1).push(r));
        lemma_enc_repos_push(rs.skip(1), r);
        assert(enc_repos(rs.push(r)) =~= enc_repos(rs) + enc_repo(r));
    }
}

fn push_le8(out: &mut Vec<u8>, n: u64)
    ensures
        final(out)@ == old(out)@ + le_bytes(n as int, 8),
{
    let n0 = n;
    let n1 = n0 / 256;
    let n2 = n1 / 256;
    let n3 = n2 / 256;
    let n4 = n3 / 256;
    let n5 = n4 / 256;
    let n6 = n5 / 256;
    let n7 = n6 / 256;
    out.push((n0 % 256) as u8);
    out.push((n1 % 256) as u8);
    out.push((n2 % 256) as u8);
    out.push((n3 % 256) as u8);
    out.push((n4 % 256) as u8);
    out.push((n5 % 256) as u8);
    out.push((n6 % 256) as u8);
    out.push((n7 % 256) as u8);
    proof {
        reveal_with_fuel(le_bytes, 9);
        assert(out@ =~= old(out)@ + le_bytes(n as int, 8));
    }
}

fn push_le4(out: &mut Vec<u8>, n: u32)
    ensures
        final(out)@ == old(out)@ + le_bytes(n as int, 4),
{
    let n0 = n;
    let n1 = n0 / 256;
    let n2 = n1 / 256;
    let n3 = n2 / 256;
    out.push((n0 % 256) as u8);
    out.push((n1 % 256) as u8);
    out.push((n2 % 256) as u8);
    out.push((n3 % 256) as u8);
    proof {
        reveal_with_fuel(le_bytes, 5);
        assert(out@ =~= old(out)@ + le_bytes(n as int, 4));
    }
}

fn push_str(out: &mut Vec<u8>, s: &str)
    ensures
        final(out)@ == old(out)@ + enc_str(s@),
{
    let len = s.unicode_len();
    push_le8(out, len as u64);
    let mut i: usize = 0;
    while i < len
        invariant
            i <= len,
            len == s@.len(),
            out@ == old(out)@ + le_bytes(s@.len() as int, 8) + enc_chars(s@.take(i as int)),
        decreases len - i,
    {
        let c = s.get_char(i);
        push_le4(out, c as u32);
        proof {
            lemma_enc_chars_push(s@.take(i as int), s@[i as int]);
            assert(s@.take(i as int + 1) =~= s@.take(i as int).push(s@[i as int]));
            assert(out@ =~= old(out)@ + le_bytes(s@.len() as int, 8) + enc_chars(s@.take(i as int + 1)));
        }
        i += 1;
    }
    proof {
        assert(s@.take(len as int) =~= s@);
        assert(out@ =~= old(out)@ + enc_str(s@));
    }
}

fn push_opt(out: &mut Vec<u8>, o: &Option<String>)
    ensures
        final(out)@ == old(out)@ + enc_opt(opt_view(*o)),
{
    match o {
        None => {
            out.push(0u8);
            proof {
                assert(out@ =~= old(out)@ + enc_opt(opt_view(*o)));
            }
        },
        Some(s) => {
            out.push(1u8);
            push_str(out, s.as_str());
            proof {
                assert(out@ =~= old(out)@ + enc_opt(opt_view(*o)));
            }
        },
    }
}

fn push_str_list(out: &mut Vec<u8>, v: &Vec<String>)
    ensures
        final(out)@ == old(out)@ + enc_str_list(v@.map_values(|s: String| s@)),
{
    let ghost ms = v@.map_values(|s: String| s@);
    push_le8(out, v.len() as u64);
    let mut i: usize = 0;
    while i < v.len()
        invariant
            i <= v.len(),
            ms == v@.map_values(|s: String| s@),
            ms.len() == v@.len(),
            out@ == old(out)@ + le_bytes(ms.len() as int, 8) + enc_strs(ms.take(i as int)),
        decreases v.len() - i,
    {
        push_str(out, v[i].as_str());
        proof {
            lemma_enc_strs_push(ms.take(i as int), ms[i as int]);
            assert(ms.take(i as int + 1) =~= ms.take(i as int).push(ms[i as int]));
            assert(out@ =~= old(out)@ + le_bytes(ms.len() as int, 8) + enc_strs(ms.take(i as int + 1)));
        }
        i += 1;
    }
    proof {
        assert(ms.take(v@.len() as int) =~= ms);
        assert(out@ =~= old(out)@ + enc_str_list(ms));
    }
}

fn push_repo(out: &mut Vec<u8>, r: &Repository)
    ensures
        final(out)@ == old(out)@ + enc_repo(r@),
{
    push_str(out, r.name.as_str());
    push_str(out, r.url.as_str());
    push_str_list(out, &r.check_sets);
    proof {
        assert(out@ =~= old(out)@ + enc_repo(r@));
    }
}

/// The canonical encoding of a project record, digest field excluded.
#[verifier::rlimit(100)]
pub fn encode_project(p: &Project) -> (out: Vec<u8>)
    ensures
        out@ == enc_project(p@),
{
    let ghost pv = p@;
    let ghost rs = p.repositories@.map_values(|r: Repository| r@);
    let mut out: Vec<u8> = Vec::new();
    push_str(&mut out, p.name.as_str());
    let ghost g1 = out@;
    push_opt(&mut out, &p.display_name);
    let ghost g2 = out@;
    push_str(&mut out, p.description.as_str());
    let ghost g3 = out@;
    push_str(&mut out, p.category.as_str());
    let ghost g4 = out@;
    push_opt(&mut out, &p.home_url);
    let ghost g5 = out@;
    push_opt(&mut out, &p.logo_url);
    let ghost g6 = out@;
    push_opt(&mut out, &p.logo_dark_url);
    let ghost g7 = out@;
    push_opt(&mut out, &p.devstats_url);
    let ghost g8 = out@;
    push_opt(&mut out, &p.accepted_at);
    let ghost g9 = out@;
    push_str(&mut out, p.maturity.as_str());
    let ghost head = out@;
    push_le8(&mut out, p.repositories.len() as u64);
    let mut i: usize = 0;
    while i < p.repositories.len()
        invariant
            i <= p.repositories.len(),
            rs == p.repositories@.map_values(|r: Repository| r@),
            rs.len() == p.repositories@.len(),
            out@ == head + le_bytes(rs.len() as int, 8) + enc_repos(rs.take(i as int)),
        decreases p.repositories.len() - i,
    {
        push_repo(&mut out, &p.repositories[i]);
        proof {
            lemma_enc_repos_push(rs.take(i as int), rs[i as int]);
            assert(rs.take(i as int + 1) =~= rs.take(i as int).push(rs[i as int]));
            assert(out@ =~= head + le_bytes(rs.len() as int, 8) + enc_repos(rs.take(i as int + 1)));
        }
        i += 1;
    }
    proof {
        assert(rs.take(p.repositories@.len() as int) =~= rs);
        assert(rs == pv.repositories);
        // fold the pieces back up from the right, one association at a time
        let r11 = enc_repo_list(pv.repositories);
        let r10 = enc_str(pv.maturity) + r11;
        let r9 = enc_opt(pv.accepted_at) + r10;
        let r8 = enc_opt(pv.devstats_url) + r9;
        let r7 = enc_opt(pv.logo_dark_url) + r8;
        let r6 = enc_opt(pv.logo_url) + r7;
        let r5 = enc_opt(pv.home_url) + r6;
        let r4 = enc_str(pv.category) + r5;
        let r3 = enc_str(pv.description) + r4;
        let r2 = enc_opt(pv.display_name) + r3;
        let r1 = enc_str(pv.name) + r2;
        assert(out@ =~= head + r11);
        assert(head + r11 =~= g9 + r10);
        assert(g9 + r10 =~= g8 + r9);
        assert(g8 + r9 =~= g7 + r8);
        assert(g7 + r8 =~= g6 + r7);
        assert(g6 + r7 =~= g5 + r6);
        assert(g5 + r6 =~= g4 + r5);
        assert(g4 + r5 =~= g3 + r4);
        assert(g3 + r4 =~= g2 + r3);
        assert(g2 + r3 =~= g1 + r2);
        assert(g1 + r2 =~= r1);
        assert(r1 == enc_project(pv));
    }
    out
}

} // verus!
