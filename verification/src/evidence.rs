//! What holds of every listing of open files: which machine it names does not
//! depend on the order of its lines.

use crate::text::{after_prefix, lines_of, pieces, pieces_not_empty};
use crate::vm::{
    a_file_keeps_candidates, among, candidates, colima_claim, desktop_claim, evidence_of,
    identity_in, instance_disk, lima_claim, path_of, same_machine, same_place, with_claim,
    with_file, Claim, IdentityView,
};
use vstd::prelude::*;

verus! {

/// The open files that some lines name, in their order.
pub open spec fn files_in(lines: Seq<Seq<char>>) -> Seq<Seq<char>>
    decreases lines.len(),
{
    if lines.len() == 0 {
        seq![]
    } else {
        match after_prefix(lines.last(), "n"@) {
            Some(file) => files_in(lines.drop_last()).push(file),
            None => files_in(lines.drop_last()),
        }
    }
}

/// The candidates that some open files name.
pub open spec fn candidates_of(files: Seq<Seq<char>>) -> Option<Seq<IdentityView>>
    decreases files.len(),
{
    if files.len() == 0 {
        Some(Seq::empty())
    } else {
        with_file(candidates_of(files.drop_last()), files.last())
    }
}

proof fn only_files_matter(lines: Seq<Seq<char>>)
    ensures
        candidates(lines) == candidates_of(files_in(lines)),
    decreases lines.len(),
{
    if lines.len() > 0 {
        only_files_matter(lines.drop_last());
        if let Some(file) = after_prefix(lines.last(), "n"@) {
            let files = files_in(lines.drop_last());
            assert(files.push(file).drop_last() =~= files);
        }
    }
}

/// The two identities lead to one machine by one socket; the evidence may
/// differ. Paths agree as the file system reads them.
pub open spec fn agree(a: IdentityView, b: IdentityView) -> bool {
    &&& a.tool == b.tool
    &&& a.profile == b.profile
    &&& a.instance == b.instance
    &&& same_place(a.lima_home, b.lima_home)
    &&& same_place(a.docker_socket, b.docker_socket)
}

/// A file is a disk of a Colima or Lima machine.
spec fn claims(file: Seq<char>, id: IdentityView) -> bool {
    colima_claim(file) == Claim::Machine(id) || lima_claim(file) == Claim::Machine(id)
}

/// How many files are the disk of Docker Desktop.
spec fn desktops(files: Seq<Seq<char>>) -> nat
    decreases files.len(),
{
    if files.len() == 0 {
        0
    } else {
        desktops(files.drop_last()) + if desktop_claim(files.last()) is Some {
            1nat
        } else {
            0nat
        }
    }
}

spec fn is_desktop(id: IdentityView) -> bool {
    id.tool == "Docker Desktop"@
}

proof fn tools_differ()
    ensures
        "colima"@ != "Lima"@,
        "colima"@ != "Docker Desktop"@,
        "Lima"@ != "Docker Desktop"@,
{
    reveal_strlit("colima");
    reveal_strlit("Lima");
    reveal_strlit("Docker Desktop");
    assert("colima"@.len() == 6);
    assert("Lima"@.len() == 4);
    assert("Docker Desktop"@.len() == 14);
}

/// Some file is a disk that its tool would not have named so.
spec fn has_foreign(files: Seq<Seq<char>>) -> bool {
    exists|i: int| 0 <= i < files.len() && colima_claim(#[trigger] files[i]) is Foreign
}

/// Some file is a disk of a Colima or Lima machine.
spec fn has_claim(files: Seq<Seq<char>>) -> bool {
    exists|i: int, id: IdentityView| 0 <= i < files.len() && #[trigger] claims(files[i], id)
}

proof fn foreign_disks_end_the_search(files: Seq<Seq<char>>)
    ensures
        candidates_of(files) is None <==> has_foreign(files),
    decreases files.len(),
{
    if files.len() > 0 {
        let before = files.drop_last();
        foreign_disks_end_the_search(before);
        assert(files[files.len() - 1] == files.last());
        if has_foreign(before) {
            let i = choose|i: int|
                0 <= i < before.len() && colima_claim(#[trigger] before[i]) is Foreign;
            assert(files[i] == before[i]);
        }
        if has_foreign(files) {
            let i = choose|i: int|
                0 <= i < files.len() && colima_claim(#[trigger] files[i]) is Foreign;
            if i < before.len() {
                assert(before[i] == files[i]);
            }
        }
    }
}

proof fn evidence_is_among(files: Seq<Seq<char>>, i: int, id: IdentityView)
    requires
        0 <= i < files.len(),
        evidence_of(files[i], id),
        candidates_of(files) is Some,
    ensures
        among(candidates_of(files)->0, id),
    decreases files.len(),
{
    let before = files.drop_last();
    a_file_keeps_candidates(candidates_of(before), files.last(), id);
    if i < before.len() {
        assert(before[i] == files[i]);
        evidence_is_among(before, i, id);
    }
}

/// Some file names the candidate at `k`.
spec fn is_named(files: Seq<Seq<char>>, id: IdentityView) -> bool {
    exists|i: int| 0 <= i < files.len() && evidence_of(#[trigger] files[i], id)
}

proof fn candidates_have_evidence(files: Seq<Seq<char>>, k: int)
    requires
        candidates_of(files) is Some,
        0 <= k < candidates_of(files)->0.len(),
    ensures
        is_named(files, candidates_of(files)->0[k]),
    decreases files.len(),
{
    let before = files.drop_last();
    let found = candidates_of(files)->0;
    let f = candidates_of(before)->0;
    a_file_keeps_candidates(candidates_of(before), files.last(), found[k]);
    if k < f.len() {
        assert(found[k] == f[k]);
        candidates_have_evidence(before, k);
        let i = choose|i: int| 0 <= i < before.len() && evidence_of(#[trigger] before[i], f[k]);
        assert(files[i] == before[i]);
        assert(evidence_of(files[i], found[k]));
    } else {
        assert(evidence_of(files[files.len() - 1], found[k]));
    }
}

proof fn without_claims_only_desktops_count(files: Seq<Seq<char>>)
    requires
        !has_claim(files),
        candidates_of(files) is Some,
    ensures
        candidates_of(files)->0.len() == desktops(files),
    decreases files.len(),
{
    if files.len() > 0 {
        let before = files.drop_last();
        let file = files.last();
        assert(files[files.len() - 1] == file);
        if has_claim(before) {
            let (i, id) = choose|i: int, id: IdentityView|
                0 <= i < before.len() && #[trigger] claims(before[i], id);
            assert(claims(files[i], id));
        }
        if let Claim::Machine(id) = colima_claim(file) {
            assert(claims(files[files.len() - 1], id));
        }
        if let Claim::Machine(id) = lima_claim(file) {
            assert(claims(files[files.len() - 1], id));
        }
        a_file_keeps_candidates(candidates_of(before), file, arbitrary());
        without_claims_only_desktops_count(before);
    }
}

/// No two candidates are one Colima or Lima machine.
spec fn apart(found: Seq<IdentityView>) -> bool {
    forall|p: int, q: int|
        0 <= p < q < found.len() && !is_desktop(#[trigger] found[p]) && !is_desktop(
            #[trigger] found[q],
        ) ==> !same_machine(found[p], found[q])
}

proof fn a_claim_keeps_them_apart(found: Seq<IdentityView>, claim: Claim)
    requires
        apart(found),
    ensures
        with_claim(Some(found), claim) is Some ==> apart(with_claim(Some(found), claim)->0),
{
    if let Claim::Machine(id) = claim {
        if !among(found, id) {
            let next = found.push(id);
            assert forall|p: int, q: int|
                0 <= p < q < next.len() && !is_desktop(#[trigger] next[p]) && !is_desktop(
                    #[trigger] next[q],
                ) implies !same_machine(next[p], next[q]) by {
                if q < found.len() {
                    assert(found[p] == next[p] && found[q] == next[q]);
                } else {
                    assert(found[p] == next[p]);
                }
            }
        }
    }
}

proof fn candidates_are_apart(files: Seq<Seq<char>>)
    requires
        candidates_of(files) is Some,
    ensures
        apart(candidates_of(files)->0),
    decreases files.len(),
{
    if files.len() > 0 {
        let before = files.drop_last();
        let file = files.last();
        a_file_keeps_candidates(candidates_of(before), file, arbitrary());
        candidates_are_apart(before);
        let f = candidates_of(before)->0;
        a_claim_keeps_them_apart(f, colima_claim(file));
        let g = with_claim(Some(f), colima_claim(file))->0;
        a_claim_keeps_them_apart(g, lima_claim(file));
        let h = with_claim(Some(g), lima_claim(file))->0;
        if let Some(id) = desktop_claim(file) {
            let next = h.push(id);
            assert forall|p: int, q: int|
                0 <= p < q < next.len() && !is_desktop(#[trigger] next[p]) && !is_desktop(
                    #[trigger] next[q],
                ) implies !same_machine(next[p], next[q]) by {
                if q < h.len() {
                    assert(h[p] == next[p] && h[q] == next[q]);
                }
            }
        }
    }
}

proof fn desktops_without(files: Seq<Seq<char>>, i: int)
    requires
        0 <= i < files.len(),
    ensures
        desktops(files) == desktops(files.remove(i)) + if desktop_claim(files[i]) is Some {
            1nat
        } else {
            0nat
        },
    decreases files.len(),
{
    if i == files.len() - 1 {
        assert(files.remove(i) =~= files.drop_last());
    } else {
        desktops_without(files.drop_last(), i);
        assert(files.remove(i).drop_last() =~= files.drop_last().remove(i));
        assert(files.remove(i).last() == files.last());
    }
}

proof fn desktops_keep_their_number(a: Seq<Seq<char>>, b: Seq<Seq<char>>)
    requires
        a.to_multiset() == b.to_multiset(),
    ensures
        desktops(a) == desktops(b),
    decreases a.len(),
{
    broadcast use vstd::seq_lib::group_to_multiset_ensures;

    assert(a.len() == a.to_multiset().len());
    assert(b.len() == b.to_multiset().len());
    if a.len() > 0 {
        let n = a.len() - 1;
        assert(a.contains(a[n]));
        assert(a.to_multiset().count(a[n]) > 0);
        assert(b.contains(a[n]));
        let k = choose|k: int| 0 <= k < b.len() && b[k] == a[n];
        assert(a.remove(n).to_multiset() == a.to_multiset().remove(a[n]));
        assert(b.remove(k).to_multiset() == b.to_multiset().remove(b[k]));
        desktops_keep_their_number(a.remove(n), b.remove(k));
        desktops_without(a, n);
        desktops_without(b, k);
    }
}

proof fn one_desktop_is_one_file(files: Seq<Seq<char>>, i: int, j: int)
    requires
        desktops(files) <= 1,
        0 <= i < files.len(),
        0 <= j < files.len(),
        desktop_claim(files[i]) is Some,
        desktop_claim(files[j]) is Some,
    ensures
        i == j,
{
    if i != j {
        desktops_without(files, i);
        let less = files.remove(i);
        let k = if j < i { j } else { j - 1 };
        assert(less[k] == files[j]);
        desktops_without(less, k);
    }
}

/// The named components of a path.
spec fn components(s: Seq<char>) -> Seq<Seq<char>> {
    pieces(s, '/').filter(|p: Seq<char>| p.len() != 0 && p != seq!['.'])
}

/// A path joined of two has the pieces of both.
pub proof fn pieces_of_a_join(a: Seq<char>, b: Seq<char>)
    ensures
        pieces(a + seq!['/'] + b, '/') == pieces(a, '/') + pieces(b, '/'),
    decreases b.len(),
{
    let s = a + seq!['/'] + b;
    pieces_not_empty(a, '/');
    pieces_not_empty(b, '/');
    if b.len() == 0 {
        assert(s.drop_last() =~= a);
        assert(s.last() == '/');
        assert(pieces(s, '/') =~= pieces(a, '/') + pieces(b, '/'));
    } else {
        let c = b.drop_last();
        pieces_of_a_join(a, c);
        pieces_not_empty(c, '/');
        assert(s.drop_last() =~= a + seq!['/'] + c);
        assert(s.last() == b.last());
        let rest = pieces(a, '/') + pieces(c, '/');
        assert(rest.last() == pieces(c, '/').last());
        assert(rest.drop_last() =~= pieces(a, '/') + pieces(c, '/').drop_last());
        assert(pieces(s, '/') =~= pieces(a, '/') + pieces(b, '/'));
    }
}

proof fn filter_of_a_join(
    a: Seq<Seq<char>>,
    b: Seq<Seq<char>>,
    keep: spec_fn(Seq<char>) -> bool,
)
    ensures
        (a + b).filter(keep) == a.filter(keep) + b.filter(keep),
    decreases b.len(),
{
    reveal(Seq::filter);
    if b.len() == 0 {
        assert(a + b =~= a);
        assert(a.filter(keep) + b.filter(keep) =~= a.filter(keep));
    } else {
        filter_of_a_join(a, b.drop_last(), keep);
        assert((a + b).drop_last() =~= a + b.drop_last());
        assert((a + b).last() == b.last());
        assert((a + b).filter(keep) =~= a.filter(keep) + b.filter(keep));
    }
}

proof fn first_piece_of_a_join(a: Seq<char>, b: Seq<char>)
    ensures
        path_of(a + seq!['/'] + b) == (
            a.len() == 0 || a[0] == '/',
            !(a.len() == 0 || a[0] == '/') && pieces(a, '/')[0] == seq!['.'],
            components(a) + components(b),
        ),
{
    let s = a + seq!['/'] + b;
    pieces_of_a_join(a, b);
    pieces_not_empty(a, '/');
    let keep = |p: Seq<char>| p.len() != 0 && p != seq!['.'];
    filter_of_a_join(pieces(a, '/'), pieces(b, '/'), keep);
    assert(pieces(s, '/')[0] == pieces(a, '/')[0]);
    if a.len() == 0 {
        assert(s[0] == '/');
    } else {
        assert(s[0] == a[0]);
    }
}

/// Two homes under which one path leads to the same place lead to the same
/// place by any other path.
proof fn same_home(h: Seq<char>, k: Seq<char>, x: Seq<char>, y: Seq<char>)
    requires
        x.len() > 0,
        x[0] == '/',
        y.len() > 0,
        y[0] == '/',
        path_of(h + x) == path_of(k + x),
    ensures
        path_of(h + y) == path_of(k + y),
{
    let xs = x.skip(1);
    let ys = y.skip(1);
    assert(h + x =~= h + seq!['/'] + xs);
    assert(k + x =~= k + seq!['/'] + xs);
    assert(h + y =~= h + seq!['/'] + ys);
    assert(k + y =~= k + seq!['/'] + ys);
    first_piece_of_a_join(h, xs);
    first_piece_of_a_join(k, xs);
    first_piece_of_a_join(h, ys);
    first_piece_of_a_join(k, ys);
    let (a, b, c) = (components(h), components(k), components(xs));
    assert(a + c == b + c);
    assert((a + c).len() == a.len() + c.len());
    assert((b + c).len() == b.len() + c.len());
    assert(a =~= (a + c).take(a.len() as int));
    assert(b =~= (b + c).take(b.len() as int));
}

proof fn claims_of_one_machine_agree(
    f: Seq<char>,
    g: Seq<char>,
    a: IdentityView,
    b: IdentityView,
)
    requires
        claims(f, a),
        claims(g, b),
        same_machine(a, b),
    ensures
        agree(a, b),
{
    tools_differ();
    if colima_claim(f) == Claim::Machine(a) && a.tool == "colima"@ {
        assert(colima_claim(g) == Claim::Machine(b));
        let (h, i) = instance_disk(f, "/.colima/_lima/"@)->0;
        let (k, j) = instance_disk(g, "/.colima/_lima/"@)->0;
        assert(i == j);
        let p = a.profile->0;
        let y = "/.colima/"@ + p + "/docker.sock"@;
        reveal_strlit("/.colima/_lima");
        reveal_strlit("/.colima/");
        assert("/.colima/_lima"@[0] == '/');
        assert(y[0] == '/');
        same_home(h, k, "/.colima/_lima"@, y);
        assert(h + y =~= h + "/.colima/"@ + p + "/docker.sock"@);
        assert(k + y =~= k + "/.colima/"@ + p + "/docker.sock"@);
    } else {
        assert(lima_claim(f) == Claim::Machine(a));
        assert(lima_claim(g) == Claim::Machine(b));
        let (h, i) = instance_disk(f, "/.lima/"@)->0;
        let (k, j) = instance_disk(g, "/.lima/"@)->0;
        assert(i == j);
        let y = "/.lima/"@ + i + "/sock/docker.sock"@;
        reveal_strlit("/.lima");
        reveal_strlit("/.lima/");
        assert("/.lima"@[0] == '/');
        assert(y[0] == '/');
        same_home(h, k, "/.lima"@, y);
        assert(h + y =~= h + "/.lima/"@ + i + "/sock/docker.sock"@);
        assert(k + y =~= k + "/.lima/"@ + i + "/sock/docker.sock"@);
    }
}

proof fn shared_file(a: Seq<Seq<char>>, b: Seq<Seq<char>>, i: int) -> (j: int)
    requires
        a.to_multiset() == b.to_multiset(),
        0 <= i < a.len(),
    ensures
        0 <= j < b.len(),
        b[j] == a[i],
{
    broadcast use vstd::seq_lib::group_to_multiset_ensures;

    assert(a.contains(a[i]));
    assert(a.to_multiset().count(a[i]) > 0);
    assert(b.contains(a[i]));
    choose|j: int| 0 <= j < b.len() && b[j] == a[i]
}

proof fn reordered_files_name_the_same(a: Seq<Seq<char>>, b: Seq<Seq<char>>)
    requires
        a.to_multiset() == b.to_multiset(),
        candidates_of(a) is Some,
        candidates_of(a)->0.len() == 1,
    ensures
        candidates_of(b) is Some,
        candidates_of(b)->0.len() == 1,
        agree(candidates_of(a)->0[0], candidates_of(b)->0[0]),
{
    tools_differ();
    foreign_disks_end_the_search(a);
    foreign_disks_end_the_search(b);
    if has_foreign(b) {
        let j = choose|j: int| 0 <= j < b.len() && colima_claim(#[trigger] b[j]) is Foreign;
        let i = shared_file(b, a, j);
        assert(colima_claim(a[i]) is Foreign);
    }
    let fa = candidates_of(a)->0;
    let fb = candidates_of(b)->0;
    let x = fa[0];
    desktops_keep_their_number(a, b);
    candidates_have_evidence(a, 0);
    let i = choose|i: int| 0 <= i < a.len() && evidence_of(#[trigger] a[i], x);
    let j = shared_file(a, b, i);
    evidence_is_among(b, j, x);
    if is_desktop(x) {
        // No file is a disk of another machine, in either order.
        if has_claim(b) {
            let (m, id) = choose|m: int, id: IdentityView|
                0 <= m < b.len() && #[trigger] claims(b[m], id);
            let n = shared_file(b, a, m);
            assert(evidence_of(a[n], id));
            evidence_is_among(a, n, id);
            assert(same_machine(fa[0], id));
        }
        if has_claim(a) {
            let (m, id) = choose|m: int, id: IdentityView|
                0 <= m < a.len() && #[trigger] claims(a[m], id);
            assert(evidence_of(a[m], id));
            evidence_is_among(a, m, id);
            assert(same_machine(fa[0], id));
        }
        without_claims_only_desktops_count(a);
        without_claims_only_desktops_count(b);
        candidates_have_evidence(b, 0);
        let m = choose|m: int| 0 <= m < b.len() && evidence_of(#[trigger] b[m], fb[0]);
        if !(desktop_claim(b[m]) == Some(fb[0])) {
            assert(claims(b[m], fb[0]));
        }
        one_desktop_is_one_file(b, j, m);
        assert(fb[0] == x);
    } else {
        assert(fb.len() > 0);
        candidates_are_apart(b);
        assert forall|k: int| 0 <= k < fb.len() implies !is_desktop(#[trigger] fb[k])
            && same_machine(x, fb[k]) by {
            candidates_have_evidence(b, k);
            let m = choose|m: int| 0 <= m < b.len() && evidence_of(#[trigger] b[m], fb[k]);
            let n = shared_file(b, a, m);
            assert(evidence_of(a[n], fb[k]));
            evidence_is_among(a, n, fb[k]);
            assert(same_machine(fa[0], fb[k]));
        }
        if fb.len() > 1 {
            assert(!is_desktop(fb[0]) && !is_desktop(fb[1]));
            assert(same_machine(fb[0], fb[1]));
        }
        candidates_have_evidence(b, 0);
        let m = choose|m: int| 0 <= m < b.len() && evidence_of(#[trigger] b[m], fb[0]);
        assert(same_machine(x, fb[0]));
        claims_of_one_machine_agree(a[i], b[m], x, fb[0]);
    }
}

/// Which machine a listing names does not depend on the order of its lines,
/// nor on lines that name no file: listings with the same open files, each as
/// often, identify the same machine or none. Only the evidence may differ.
pub proof fn line_order_does_not_matter(a: Seq<char>, b: Seq<char>)
    requires
        files_in(lines_of(a)).to_multiset() == files_in(lines_of(b)).to_multiset(),
    ensures
        identity_in(a) is Some == identity_in(b) is Some,
        identity_in(a) is Some ==> agree(identity_in(a)->0, identity_in(b)->0),
{
    only_files_matter(lines_of(a));
    only_files_matter(lines_of(b));
    if identity_in(a) is Some {
        reordered_files_name_the_same(files_in(lines_of(a)), files_in(lines_of(b)));
    }
    if identity_in(b) is Some {
        reordered_files_name_the_same(files_in(lines_of(b)), files_in(lines_of(a)));
    }
}

} // verus!
