//! File paths.
//!
//! A path is a sequence of bytes interpreted as components separated by `/`.
//! A path is absolute when empty or starting with `/`. Construction fails
//! with `ENAMETOOLONG` above `PATH_MAX`.

use vstd::prelude::*;

use crate::errno::{Errno, ENAMETOOLONG};
use crate::limits::PATH_MAX;

verus! {

/// The byte used as a path separator.
pub const PATH_SEPARATOR: u8 = 47;

/// A component of a path.
#[derive(Clone, Debug)]
pub enum Component {
    /// The root directory (heading `/`).
    RootDir,
    /// The current directory (`.`).
    CurDir,
    /// The parent directory (`..`).
    ParentDir,
    /// A normal component.
    Normal(Vec<u8>),
}

/// The mathematical form of a component.
#[verifier::ext_equal]
pub enum CompView {
    /// The root directory.
    RootDir,
    /// The current directory.
    CurDir,
    /// The parent directory.
    ParentDir,
    /// A normal component, with its name bytes.
    Normal(Seq<u8>),
}

impl View for Component {
    type V = CompView;

    open spec fn view(&self) -> CompView {
        match self {
            Component::RootDir => CompView::RootDir,
            Component::CurDir => CompView::CurDir,
            Component::ParentDir => CompView::ParentDir,
            Component::Normal(name) => CompView::Normal(name@),
        }
    }
}

/// The name bytes of `.`.
pub open spec fn spec_dot() -> Seq<u8> {
    seq![46u8]
}

/// The name bytes of `..`.
pub open spec fn spec_dotdot() -> Seq<u8> {
    seq![46u8, 46u8]
}

/// The length of the leading segment of `s`: the number of bytes before the
/// first separator, or all of them when there is none.
pub open spec fn seg_len(s: Seq<u8>) -> nat
    decreases s.len(),
{
    if s.len() == 0 || s[0] == PATH_SEPARATOR {
        0
    } else {
        1 + seg_len(s.skip(1))
    }
}

/// The component a non-empty segment stands for.
pub open spec fn seg_comp(seg: Seq<u8>) -> CompView {
    if seg == spec_dot() {
        CompView::CurDir
    } else if seg == spec_dotdot() {
        CompView::ParentDir
    } else {
        CompView::Normal(seg)
    }
}

/// The components of a path's bytes after the optional leading separator:
/// segments split on `/`, empty segments skipped.
pub open spec fn spec_components_rel(s: Seq<u8>) -> Seq<CompView>
    decreases s.len(),
    via spec_components_rel_decreases
{
    if s.len() == 0 {
        seq![]
    } else if s[0] == PATH_SEPARATOR {
        spec_components_rel(s.skip(1))
    } else {
        seq![seg_comp(s.take(seg_len(s) as int))] + spec_components_rel(s.skip(seg_len(s) as int))
    }
}

#[via_fn]
proof fn spec_components_rel_decreases(s: Seq<u8>) {
    if s.len() > 0 && s[0] != PATH_SEPARATOR {
        lemma_seg_len_bounds(s);
    }
}

/// The components of a path's bytes. A leading separator is the root
/// component; an empty path (the root path) has none.
pub open spec fn spec_components(s: Seq<u8>) -> Seq<CompView> {
    if s.len() > 0 && s[0] == PATH_SEPARATOR {
        seq![CompView::RootDir] + spec_components_rel(s.skip(1))
    } else {
        spec_components_rel(s)
    }
}

/// Whether a path is absolute: its first byte is `/`, or it is empty.
pub open spec fn spec_is_absolute(s: Seq<u8>) -> bool {
    s.len() == 0 || s[0] == PATH_SEPARATOR
}

/// The bytes a component contributes when a path is written back out.
pub open spec fn comp_bytes(c: CompView) -> Seq<u8> {
    match c {
        CompView::RootDir => seq![],
        CompView::CurDir => spec_dot(),
        CompView::ParentDir => spec_dotdot(),
        CompView::Normal(name) => name,
    }
}

/// Joins components with separators, without a leading one.
pub open spec fn spec_rejoin_rel(comps: Seq<CompView>) -> Seq<u8>
    decreases comps.len(),
{
    if comps.len() == 0 {
        seq![]
    } else if comps.len() == 1 {
        comp_bytes(comps[0])
    } else {
        comp_bytes(comps[0]) + seq![PATH_SEPARATOR] + spec_rejoin_rel(comps.skip(1))
    }
}

/// Writes a component list back out as path bytes: a leading `/` for the
/// root component, then the segments joined with `/`.
pub open spec fn spec_rejoin(comps: Seq<CompView>) -> Seq<u8> {
    if comps.len() > 0 && comps[0] is RootDir {
        seq![PATH_SEPARATOR] + spec_rejoin_rel(comps.skip(1))
    } else {
        spec_rejoin_rel(comps)
    }
}

/// Whether a component can appear after the head of a component list: it is
/// not the root, and a normal name is non-empty and has no separator.
pub open spec fn wf_comp(c: CompView) -> bool {
    match c {
        CompView::RootDir => false,
        CompView::CurDir => true,
        CompView::ParentDir => true,
        CompView::Normal(name) => {
            &&& name.len() > 0
            &&& name != spec_dot()
            &&& name != spec_dotdot()
            &&& forall|i: int| 0 <= i < name.len() ==> name[i] != PATH_SEPARATOR
        },
    }
}

/// Whether a component list is one that parsing can produce: the root
/// component stands at the head or nowhere, and every other entry is a
/// well-formed segment.
pub open spec fn wf_comps(comps: Seq<CompView>) -> bool {
    forall|i: int|
        0 <= i < comps.len() ==> (#[trigger] comps[i] is RootDir ==> i == 0) && (i > 0
            ==> wf_comp(comps[i])) && (i == 0 ==> comps[0] is RootDir || wf_comp(comps[0]))
}

/// The leading segment is characterized by its end: `k` bytes without a
/// separator followed by a separator or the end of the path.
pub proof fn lemma_seg_len_is(s: Seq<u8>, k: int)
    requires
        0 <= k <= s.len(),
        forall|i: int| 0 <= i < k ==> s[i] != PATH_SEPARATOR,
        k == s.len() || s[k] == PATH_SEPARATOR,
    ensures
        seg_len(s) == k,
    decreases k,
{
    if k > 0 {
        lemma_seg_len_is(s.skip(1), k - 1);
    }
}

/// Every component parsing produces is well-formed, and the root component
/// never comes out of the relative parse.
pub proof fn lemma_components_rel_wf(s: Seq<u8>)
    ensures
        forall|i: int|
            0 <= i < spec_components_rel(s).len() ==> wf_comp(#[trigger] spec_components_rel(s)[i]),
    decreases s.len(),
{
    if s.len() == 0 {
    } else if s[0] == PATH_SEPARATOR {
        lemma_components_rel_wf(s.skip(1));
        assert(spec_components_rel(s) == spec_components_rel(s.skip(1)));
    } else {
        let k = seg_len(s) as int;
        lemma_seg_len_bounds(s);
        let seg = s.take(k);
        lemma_components_rel_wf(s.skip(k));
        assert(wf_comp(seg_comp(seg))) by {
            if seg != spec_dot() && seg != spec_dotdot() {
                assert(seg.len() > 0);
                assert(forall|i: int| 0 <= i < seg.len() ==> seg[i] != PATH_SEPARATOR) by {
                    lemma_seg_len_no_sep(s);
                }
            }
        }
        assert forall|i: int|
            0 <= i < spec_components_rel(s).len() implies wf_comp(
            #[trigger] spec_components_rel(s)[i],
        ) by {
            if i == 0 {
            } else {
                assert(spec_components_rel(s)[i] == spec_components_rel(s.skip(k))[i - 1]);
            }
        }
    }
}

/// The leading segment is non-empty when the path does not start with a
/// separator, and never runs past the end.
pub proof fn lemma_seg_len_bounds(s: Seq<u8>)
    ensures
        seg_len(s) <= s.len(),
        s.len() > 0 && s[0] != PATH_SEPARATOR ==> seg_len(s) >= 1,
    decreases s.len(),
{
    if s.len() > 0 && s[0] != PATH_SEPARATOR {
        lemma_seg_len_bounds(s.skip(1));
    }
}

/// No byte of the leading segment is a separator, and the byte after it, if
/// any, is one.
pub proof fn lemma_seg_len_no_sep(s: Seq<u8>)
    ensures
        forall|i: int| 0 <= i < seg_len(s) ==> s[i] != PATH_SEPARATOR,
        seg_len(s) < s.len() ==> s[seg_len(s) as int] == PATH_SEPARATOR,
    decreases s.len(),
{
    if s.len() > 0 && s[0] != PATH_SEPARATOR {
        lemma_seg_len_bounds(s);
        lemma_seg_len_bounds(s.skip(1));
        lemma_seg_len_no_sep(s.skip(1));
        assert forall|i: int| 0 <= i < seg_len(s) implies s[i] != PATH_SEPARATOR by {
            if i > 0 {
                assert(s.skip(1)[i - 1] == s[i]);
            }
        }
    }
}

/// Parsing the written-out form of a well-formed relative component list
/// gives the list back.
pub proof fn lemma_rejoin_rel_roundtrip(comps: Seq<CompView>)
    requires
        forall|i: int| 0 <= i < comps.len() ==> wf_comp(#[trigger] comps[i]),
    ensures
        spec_components_rel(spec_rejoin_rel(comps)) == comps,
    decreases comps.len(),
{
    if comps.len() == 0 {
        assert(spec_components_rel(spec_rejoin_rel(comps)) =~= comps);
    } else {
        let c = comps[0];
        let b = comp_bytes(c);
        assert(b.len() > 0 && b[0] != PATH_SEPARATOR && forall|i: int|
            0 <= i < b.len() ==> b[i] != PATH_SEPARATOR) by {
            assert(wf_comp(c));
            match c {
                CompView::CurDir => {
                    assert(b == spec_dot());
                }
                CompView::ParentDir => {
                    assert(b == spec_dotdot());
                }
                _ => {}
            }
        }
        assert(seg_comp(b) == c) by {
            match c {
                CompView::Normal(name) => {
                    assert(b == name);
                    assert(name != spec_dot() && name != spec_dotdot());
                }
                _ => {}
            }
        }
        if comps.len() == 1 {
            let s = spec_rejoin_rel(comps);
            assert(s == b);
            lemma_seg_len_is(s, b.len() as int);
            assert(s.take(b.len() as int) =~= b);
            assert(s.skip(b.len() as int) =~= Seq::<u8>::empty());
            assert(seg_comp(s.take(b.len() as int)) == c);
            assert(spec_components_rel(s.skip(b.len() as int)) =~= Seq::<CompView>::empty());
            assert(spec_components_rel(s) =~= seq![c]);
        } else {
            let rest = spec_rejoin_rel(comps.skip(1));
            let s = b + seq![PATH_SEPARATOR] + rest;
            assert(spec_rejoin_rel(comps) == s);
            assert(forall|i: int| 0 <= i < b.len() ==> s[i] == b[i]);
            assert(s[b.len() as int] == PATH_SEPARATOR);
            lemma_seg_len_is(s, b.len() as int);
            assert(s.take(b.len() as int) =~= b);
            assert(s.skip(b.len() as int).skip(1) =~= rest);
            assert(s.skip(b.len() as int)[0] == PATH_SEPARATOR);
            assert(s.skip(b.len() as int).len() > 0);
            assert(spec_components_rel(s.skip(b.len() as int)) == spec_components_rel(rest));
            assert forall|i: int| 0 <= i < comps.skip(1).len() implies wf_comp(
                #[trigger] comps.skip(1)[i],
            ) by {
                assert(comps.skip(1)[i] == comps[i + 1]);
            }
            lemma_rejoin_rel_roundtrip(comps.skip(1));
            assert(spec_components_rel(s) =~= seq![c] + comps.skip(1));
            assert(seq![c] + comps.skip(1) =~= comps);
        }
    }
}

/// Parsing the written-out form of any well-formed component list gives the
/// list back.
pub proof fn lemma_rejoin_roundtrip(comps: Seq<CompView>)
    requires
        wf_comps(comps),
    ensures
        spec_components(spec_rejoin(comps)) == comps,
{
    if comps.len() > 0 && comps[0] is RootDir {
        let rest = comps.skip(1);
        assert forall|i: int| 0 <= i < rest.len() implies wf_comp(#[trigger] rest[i]) by {
            assert(comps[i + 1] == rest[i]);
            assert(!(comps[i + 1] is RootDir));
        }
        lemma_rejoin_rel_roundtrip(rest);
        let s = spec_rejoin(comps);
        assert(s[0] == PATH_SEPARATOR);
        assert(s.skip(1) =~= spec_rejoin_rel(rest));
        assert(spec_components(s) =~= seq![CompView::RootDir] + rest);
        assert(seq![CompView::RootDir] + rest =~= comps);
    } else {
        assert forall|i: int| 0 <= i < comps.len() implies wf_comp(#[trigger] comps[i]) by {
            assert(!(comps[i] is RootDir) || i == 0);
            if i == 0 {
                assert(comps[0] is RootDir || wf_comp(comps[0]));
                assert(!(comps[0] is RootDir));
            }
        }
        lemma_rejoin_rel_roundtrip(comps);
        let s = spec_rejoin_rel(comps);
        if s.len() > 0 && s[0] == PATH_SEPARATOR {
            // the written-out form of a well-formed relative list never
            // starts with a separator
            assert(comps.len() > 0);
            let b = comp_bytes(comps[0]);
            assert(wf_comp(comps[0]));
            assert(b.len() > 0 && b[0] != PATH_SEPARATOR) by {
                match comps[0] {
                    CompView::CurDir => {
                        assert(b == spec_dot());
                    }
                    CompView::ParentDir => {
                        assert(b == spec_dotdot());
                    }
                    _ => {}
                }
            }
            assert(s[0] == b[0]);
            assert(false);
        }
    }
}

/// Every component list parsing produces is well-formed.
pub proof fn lemma_components_wf(s: Seq<u8>)
    ensures
        wf_comps(spec_components(s)),
{
    if s.len() > 0 && s[0] == PATH_SEPARATOR {
        lemma_components_rel_wf(s.skip(1));
        let comps = spec_components(s);
        let rest = spec_components_rel(s.skip(1));
        assert forall|i: int|
            0 <= i < comps.len() implies (#[trigger] comps[i] is RootDir ==> i == 0) && (i > 0
            ==> wf_comp(comps[i])) && (i == 0 ==> comps[0] is RootDir || wf_comp(comps[0])) by {
            if i > 0 {
                assert(comps[i] == rest[i - 1]);
            }
        }
    } else {
        lemma_components_rel_wf(s);
    }
}

/// Splitting a path into components and writing them back out yields a path
/// with the same components: its canonical form.
pub proof fn lemma_components_rejoin_roundtrip(s: Seq<u8>)
    ensures
        spec_components(spec_rejoin(spec_components(s))) == spec_components(s),
{
    lemma_components_wf(s);
    lemma_rejoin_roundtrip(spec_components(s));
}


/// The component views of a component list.
pub open spec fn views_of(comps: Seq<Component>) -> Seq<CompView> {
    comps.map_values(|c: Component| c@)
}

/// Whether two byte slices hold the same bytes.
fn bytes_eq(a: &[u8], b: &[u8]) -> (r: bool)
    ensures
        r == (a@ == b@),
{
    if a.len() != b.len() {
        proof {
            assert(a@.len() != b@.len());
        }
        return false;
    }
    let mut i: usize = 0;
    while i < a.len()
        invariant
            i <= a@.len(),
            forall|j: int| 0 <= j < i ==> a@[j] == b@[j],
        decreases a@.len() - i,
    {
        if a[i] != b[i] {
            return false;
        }
        i += 1;
    }
    proof {
        assert(a@ =~= b@);
    }
    true
}

/// Copies the bytes of `s[from..to]` into a fresh vector.
fn copy_range(s: &[u8], from: usize, to: usize) -> (r: Vec<u8>)
    requires
        from <= to <= s@.len(),
    ensures
        r@ == s@.subrange(from as int, to as int),
{
    let mut out: Vec<u8> = Vec::new();
    let mut i: usize = from;
    while i < to
        invariant
            from <= i <= to,
            out@ == s@.subrange(from as int, i as int),
        decreases to - i,
    {
        out.push(s[i]);
        proof {
            assert(out@ =~= s@.subrange(from as int, i + 1));
        }
        i += 1;
    }
    out
}

/// Splits the given path bytes into their components.
fn parse_components(s: &[u8]) -> (r: Vec<Component>)
    ensures
        views_of(r@) == spec_components(s@),
{
    let n = s.len();
    let mut comps: Vec<Component> = Vec::new();
    let mut pos: usize = 0;
    if n > 0 && s[0] == PATH_SEPARATOR {
        comps.push(Component::RootDir);
        pos = 1;
    }
    proof {
        assert(s@.skip(0) =~= s@);
        if n > 0 && s@[0] == PATH_SEPARATOR {
            assert(views_of(comps@) =~= seq![CompView::RootDir]);
        } else {
            assert(views_of(comps@) =~= Seq::<CompView>::empty());
        }
        assert(views_of(comps@) + spec_components_rel(s@.skip(pos as int))
            =~= spec_components(s@));
    }
    while pos < n
        invariant
            pos <= n,
            n == s@.len(),
            views_of(comps@) + spec_components_rel(s@.skip(pos as int)) == spec_components(s@),
        decreases n - pos,
    {
        if s[pos] == PATH_SEPARATOR {
            proof {
                assert(s@.skip(pos as int)[0] == PATH_SEPARATOR);
                assert(s@.skip(pos as int).skip(1) =~= s@.skip(pos + 1));
                assert(spec_components_rel(s@.skip(pos as int)) == spec_components_rel(
                    s@.skip(pos + 1),
                ));
            }
            pos += 1;
        } else {
            let ghost rest = s@.skip(pos as int);
            let mut j: usize = pos;
            while j < n && s[j] != PATH_SEPARATOR
                invariant
                    pos <= j <= n,
                    forall|i: int| pos <= i < j ==> s@[i] != PATH_SEPARATOR,
                decreases n - j,
            {
                j += 1;
            }
            proof {
                assert forall|i: int| 0 <= i < j - pos implies rest[i] != PATH_SEPARATOR by {
                    assert(rest[i] == s@[pos + i]);
                }
                if j < n {
                    assert(rest[j - pos] == s@[j as int]);
                }
                lemma_seg_len_is(rest, j - pos);
            }
            let name = copy_range(s, pos, j);
            proof {
                assert(name@ =~= rest.take(j - pos));
            }
            let comp = if name.len() == 1 && name[0] == 46 {
                proof {
                    assert(name@ =~= spec_dot());
                }
                Component::CurDir
            } else if name.len() == 2 && name[0] == 46 && name[1] == 46 {
                proof {
                    assert(name@ =~= spec_dotdot());
                }
                Component::ParentDir
            } else {
                proof {
                    if name@ == spec_dot() {
                        assert(name@.len() == 1 && name@[0] == 46);
                        assert(false);
                    }
                    if name@ == spec_dotdot() {
                        assert(name@.len() == 2 && name@[0] == 46 && name@[1] == 46);
                        assert(false);
                    }
                }
                Component::Normal(name)
            };
            proof {
                assert(comp@ == seg_comp(rest.take(seg_len(rest) as int)));
                assert(rest.skip(j - pos) =~= s@.skip(j as int));
                assert(spec_components_rel(rest) == seq![comp@] + spec_components_rel(
                    s@.skip(j as int),
                ));
            }
            let ghost prev = comps@;
            comps.push(comp);
            proof {
                assert(views_of(comps@) =~= views_of(prev) + seq![comp@]);
            }
            pos = j;
        }
        proof {
            assert(views_of(comps@) + spec_components_rel(s@.skip(pos as int))
                =~= spec_components(s@));
        }
    }
    proof {
        assert(s@.skip(n as int) =~= Seq::<u8>::empty());
        assert(views_of(comps@) =~= spec_components(s@));
    }
    comps
}


/// Splits path bytes into their components.
pub fn parse_path(s: &[u8]) -> (r: Vec<Component>)
    ensures
        views_of(r@) == spec_components(s@),
{
    parse_components(s)
}

/// Writing out one more component appends a separator and its bytes.
pub proof fn lemma_rejoin_rel_push(cs: Seq<CompView>, c: CompView)
    requires
        cs.len() > 0,
    ensures
        spec_rejoin_rel(cs.push(c)) == spec_rejoin_rel(cs) + seq![PATH_SEPARATOR] + comp_bytes(c),
    decreases cs.len(),
{
    if cs.len() == 1 {
        assert(cs.push(c).skip(1) =~= seq![c]);
        assert(spec_rejoin_rel(cs.push(c)) == comp_bytes(cs[0]) + seq![PATH_SEPARATOR]
            + spec_rejoin_rel(seq![c]));
    } else {
        lemma_rejoin_rel_push(cs.skip(1), c);
        assert(cs.push(c).skip(1) =~= cs.skip(1).push(c));
        assert(spec_rejoin_rel(cs.push(c)) =~= spec_rejoin_rel(cs) + seq![PATH_SEPARATOR]
            + comp_bytes(c));
    }
}

/// A prefix of a well-formed component list is well-formed.
pub proof fn lemma_wf_take(comps: Seq<CompView>, k: int)
    requires
        wf_comps(comps),
        0 <= k <= comps.len(),
    ensures
        wf_comps(comps.take(k)),
{
    assert forall|i: int| 0 <= i < k implies comps.take(k)[i] == comps[i] by {}
}

/// Appending well-formed segments to a well-formed list keeps it
/// well-formed.
pub proof fn lemma_wf_concat(a: Seq<CompView>, b: Seq<CompView>)
    requires
        wf_comps(a),
        forall|i: int| 0 <= i < b.len() ==> wf_comp(#[trigger] b[i]),
    ensures
        wf_comps(a + b),
{
    let c = a + b;
    assert forall|i: int|
        0 <= i < c.len() implies (#[trigger] c[i] is RootDir ==> i == 0) && (i > 0 ==> wf_comp(
        c[i],
    )) && (i == 0 ==> c[0] is RootDir || wf_comp(c[0])) by {
        if i < a.len() {
            assert(c[i] == a[i]);
        } else {
            assert(c[i] == b[i - a.len()]);
            assert(wf_comp(c[i]));
        }
    }
}

/// Appends the bytes of `b` to `out`.
fn append_bytes(out: &mut Vec<u8>, b: &[u8])
    ensures
        final(out)@ == old(out)@ + b@,
{
    let mut k: usize = 0;
    while k < b.len()
        invariant
            k <= b@.len(),
            out@ == old(out)@ + b@.subrange(0, k as int),
        decreases b@.len() - k,
    {
        out.push(b[k]);
        proof {
            assert(out@ =~= old(out)@ + b@.subrange(0, k + 1));
        }
        k += 1;
    }
    proof {
        assert(old(out)@ + b@.subrange(0, b@.len() as int) =~= old(out)@ + b@);
    }
}

/// Appends the written-out bytes of one component.
fn append_comp_bytes(out: &mut Vec<u8>, c: &Component)
    ensures
        final(out)@ == old(out)@ + comp_bytes(c@),
{
    match c {
        Component::RootDir => {
            proof {
                assert(out@ =~= old(out)@ + comp_bytes(c@));
            }
        }
        Component::CurDir => {
            out.push(46);
            proof {
                assert(out@ =~= old(out)@ + comp_bytes(c@));
            }
        }
        Component::ParentDir => {
            out.push(46);
            out.push(46);
            proof {
                assert(out@ =~= old(out)@ + comp_bytes(c@));
            }
        }
        Component::Normal(name) => {
            append_bytes(out, name.as_slice());
        }
    }
}

/// Writes a component list back out as path bytes.
fn rejoin_components(comps: &Vec<Component>) -> (r: Vec<u8>)
    ensures
        r@ == spec_rejoin(views_of(comps@)),
{
    let ghost cviews = views_of(comps@);
    let mut out: Vec<u8> = Vec::new();
    let n = comps.len();
    let mut i: usize = 0;
    if n > 0 && matches!(comps[0], Component::RootDir) {
        out.push(PATH_SEPARATOR);
        i = 1;
    }
    let start: usize = i;
    let ghost lead = out@;
    let ghost relviews = cviews.skip(start as int);
    while i < n
        invariant
            start <= i <= n,
            n == comps@.len(),
            start == 0 || start == 1,
            relviews == cviews.skip(start as int),
            start == 0 ==> lead =~= Seq::<u8>::empty(),
            start == 1 ==> lead =~= seq![PATH_SEPARATOR],
            start == 0 ==> n == 0 || !(cviews[0] is RootDir),
            start == 1 ==> n > 0 && cviews[0] is RootDir,
            out@ == lead + spec_rejoin_rel(relviews.take(i - start)),
        decreases n - i,
    {
        let ghost done = relviews.take(i - start);
        if i > start {
            out.push(PATH_SEPARATOR);
        }
        append_comp_bytes(&mut out, &comps[i]);
        proof {
            let c = cviews[i as int];
            assert(relviews[i - start] == c);
            assert(relviews.take(i + 1 - start) =~= done.push(c));
            if done.len() == 0 {
                assert(spec_rejoin_rel(seq![c]) == comp_bytes(c));
                assert(relviews.take(i + 1 - start) =~= seq![c]);
                assert(out@ =~= lead + spec_rejoin_rel(relviews.take(i + 1 - start)));
            } else {
                lemma_rejoin_rel_push(done, c);
                assert(out@ =~= lead + spec_rejoin_rel(relviews.take(i + 1 - start)));
            }
        }
        i += 1;
    }
    proof {
        assert(relviews.take(n - start) =~= relviews);
        if start == 0 {
            assert(cviews.skip(0) =~= cviews);
            assert(out@ =~= spec_rejoin(cviews));
        } else {
            assert(out@ =~= spec_rejoin(cviews));
        }
    }
    out
}

/// Owned file path.
pub struct PathBuf {
    /// The path's bytes.
    bytes: Vec<u8>,
}

impl View for PathBuf {
    type V = Seq<u8>;

    closed spec fn view(&self) -> Seq<u8> {
        self.bytes@
    }
}

impl PathBuf {
    /// Creates a new path to root.
    pub fn root() -> (r: Self)
        ensures
            r@ == Seq::<u8>::empty(),
    {
        PathBuf { bytes: Vec::new() }
    }

    /// Creates an owned path from the given bytes.
    ///
    /// Succeeds exactly when the length is at most `PATH_MAX`; longer input
    /// is rejected with `ENAMETOOLONG`.
    pub fn try_from(s: &[u8]) -> (r: Result<Self, Errno>)
        ensures
            match r {
                Ok(p) => s@.len() <= PATH_MAX && p@ == s@,
                Err(e) => s@.len() > PATH_MAX && e == ENAMETOOLONG,
            },
    {
        if s.len() > PATH_MAX {
            return Err(ENAMETOOLONG);
        }
        let bytes = copy_range(s, 0, s.len());
        proof {
            assert(s@.subrange(0, s@.len() as int) =~= s@);
        }
        Ok(PathBuf { bytes })
    }

    /// Borrows the path.
    pub fn as_path(&self) -> (r: Path<'_>)
        ensures
            r@ == self@,
    {
        Path { bytes: self.bytes.as_slice() }
    }

    /// Returns the bytes of the path.
    pub fn as_bytes(&self) -> (r: &[u8])
        ensures
            r@ == self@,
    {
        self.bytes.as_slice()
    }
}

/// Borrowed file path.
pub struct Path<'a> {
    /// The path's bytes.
    bytes: &'a [u8],
}

impl<'a> View for Path<'a> {
    type V = Seq<u8>;

    closed spec fn view(&self) -> Seq<u8> {
        self.bytes@
    }
}

impl<'a> Path<'a> {
    /// Creates a new path to root.
    pub fn root() -> (r: Path<'static>)
        ensures
            r@ == Seq::<u8>::empty(),
    {
        Path { bytes: &[] }
    }

    /// Creates an instance over the given bytes.
    ///
    /// Succeeds exactly when the length is at most `PATH_MAX`; longer input
    /// is rejected with `ENAMETOOLONG`.
    pub fn new(s: &'a [u8]) -> (r: Result<Self, Errno>)
        ensures
            match r {
                Ok(p) => s@.len() <= PATH_MAX && p@ == s@,
                Err(e) => s@.len() > PATH_MAX && e == ENAMETOOLONG,
            },
    {
        if s.len() <= PATH_MAX {
            Ok(Path { bytes: s })
        } else {
            Err(ENAMETOOLONG)
        }
    }

    /// Tells whether the path is absolute: it is empty or starts with the
    /// separator.
    pub fn is_absolute(&self) -> (r: bool)
        ensures
            r == spec_is_absolute(self@),
    {
        self.bytes.len() == 0 || self.bytes[0] == PATH_SEPARATOR
    }

    /// Returns the bytes of the path.
    pub fn as_bytes(&self) -> (r: &'a [u8])
        ensures
            r@ == self@,
    {
        self.bytes
    }

    /// Clones the path into an owned [`PathBuf`].
    pub fn to_path_buf(&self) -> (r: PathBuf)
        ensures
            r@ == self@,
    {
        let bytes = copy_range(self.bytes, 0, self.bytes.len());
        proof {
            assert(self.bytes@.subrange(0, self.bytes@.len() as int) =~= self.bytes@);
        }
        PathBuf { bytes }
    }

    /// Returns a cursor over the path's components.
    pub fn components(&self) -> (r: Components)
        ensures
            r.wf(),
            r@ == spec_components(self@),
    {
        let comps = parse_components(self.bytes);
        let back = comps.len();
        proof {
            assert(views_of(comps@).subrange(0, back as int) =~= views_of(comps@));
        }
        Components { comps, front: 0, back }
    }

    /// Returns the final component of the path, as the bytes of its name.
    ///
    /// Returns `None` exactly when the path terminates with root: it has no
    /// component, or its last one is the root.
    pub fn file_name(&self) -> (r: Option<Vec<u8>>)
        ensures
            ({
                let comps = spec_components(self@);
                match r {
                    Option::None => comps.len() == 0 || comps.last() is RootDir,
                    Option::Some(name) => comps.len() > 0 && !(comps.last() is RootDir)
                        && name@ == comp_bytes(comps.last()),
                }
            }),
    {
        let mut comps = parse_components(self.bytes);
        let ghost cviews = views_of(comps@);
        match comps.pop() {
            Option::None => None,
            Option::Some(c) => {
                proof {
                    assert(cviews.last() == c@);
                }
                match c {
                    Component::RootDir => None,
                    Component::CurDir => {
                        let mut name: Vec<u8> = Vec::new();
                        name.push(46);
                        proof {
                            assert(name@ =~= spec_dot());
                        }
                        Some(name)
                    }
                    Component::ParentDir => {
                        let mut name: Vec<u8> = Vec::new();
                        name.push(46);
                        name.push(46);
                        proof {
                            assert(name@ =~= spec_dotdot());
                        }
                        Some(name)
                    }
                    Component::Normal(name) => Some(name),
                }
            }
        }
    }

    /// Returns the path without its final component, as an owned path in
    /// canonical form.
    ///
    /// Returns `None` exactly when the path terminates with root.
    pub fn parent(&self) -> (r: Option<PathBuf>)
        ensures
            ({
                let comps = spec_components(self@);
                match r {
                    Option::None => comps.len() == 0 || comps.last() is RootDir,
                    Option::Some(p) => comps.len() > 0 && !(comps.last() is RootDir)
                        && spec_components(p@) == comps.drop_last(),
                }
            }),
    {
        let mut comps = parse_components(self.bytes);
        let ghost cviews = views_of(comps@);
        match comps.pop() {
            Option::None => None,
            Option::Some(c) => {
                if matches!(c, Component::RootDir) {
                    proof {
                        assert(cviews.last() is RootDir);
                    }
                    None
                } else {
                    proof {
                        assert(views_of(comps@) =~= cviews.drop_last());
                        lemma_components_wf(self@);
                        lemma_wf_take(cviews, cviews.len() - 1);
                        assert(cviews.take(cviews.len() - 1) =~= cviews.drop_last());
                        lemma_rejoin_roundtrip(cviews.drop_last());
                    }
                    let bytes = rejoin_components(&comps);
                    Some(PathBuf { bytes })
                }
            }
        }
    }

    /// Joins the path with another.
    ///
    /// An absolute `other` replaces the current path; otherwise the result
    /// carries the components of both paths in order, in canonical form.
    /// The result's length is not checked against `PATH_MAX`.
    pub fn join(&self, other: &Path<'_>) -> (r: PathBuf)
        ensures
            spec_is_absolute(other@) ==> r@ == other@,
            !spec_is_absolute(other@) ==> spec_components(r@) == spec_components(self@)
                + spec_components(other@),
    {
        if other.is_absolute() {
            return other.to_path_buf();
        }
        let mut comps = parse_components(self.bytes);
        let ghost a = views_of(comps@);
        let mut tail_comps = parse_components(other.bytes);
        let ghost b = views_of(tail_comps@);
        let n = tail_comps.len();
        let mut k: usize = 0;
        while k < n
            invariant
                k <= n,
                n == tail_comps@.len(),
                tail_comps@.len() == n,
                views_of(tail_comps@) == b,
                views_of(comps@) == a + b.take(k as int),
            decreases n - k,
        {
            let ghost prev = comps@;
            let c = copy_component(&tail_comps[k]);
            proof {
                assert(c@ == b[k as int]);
            }
            comps.push(c);
            proof {
                assert(views_of(comps@) =~= views_of(prev).push(c@));
                assert(views_of(comps@) =~= a + b.take(k + 1));
            }
            k += 1;
        }
        proof {
            assert(b.take(n as int) =~= b);
            assert(views_of(comps@) =~= a + b);
            lemma_components_wf(self@);
            lemma_components_rel_wf(other@);
            assert(spec_components(other@) == spec_components_rel(other@));
            lemma_wf_concat(a, b);
            lemma_rejoin_roundtrip(a + b);
        }
        let bytes = rejoin_components(&comps);
        PathBuf { bytes }
    }

    /// Tells whether the path starts with the given `base`: their components
    /// agree as far as both go.
    pub fn starts_with(&self, base: &Path<'_>) -> (r: bool)
        ensures
            ({
                let a = spec_components(self@);
                let b = spec_components(base@);
                r == forall|i: int| 0 <= i < a.len() && i < b.len() ==> #[trigger] a[i] == b[i]
            }),
    {
        let comps = parse_components(self.bytes);
        let base_comps = parse_components(base.bytes);
        let ghost a = views_of(comps@);
        let ghost b = views_of(base_comps@);
        let n = if comps.len() < base_comps.len() {
            comps.len()
        } else {
            base_comps.len()
        };
        let mut i: usize = 0;
        while i < n
            invariant
                i <= n,
                n <= comps@.len(),
                n <= base_comps@.len(),
                n == if comps@.len() < base_comps@.len() {
                    comps@.len()
                } else {
                    base_comps@.len()
                },
                views_of(comps@) == a,
                views_of(base_comps@) == b,
                forall|j: int| 0 <= j < i ==> #[trigger] a[j] == b[j],
            decreases n - i,
        {
            if !component_eq(&comps[i], &base_comps[i]) {
                proof {
                    assert(a[i as int] == views_of(comps@)[i as int]);
                    assert(b[i as int] == views_of(base_comps@)[i as int]);
                    assert(a[i as int] != b[i as int]);
                    assert(0 <= i && (i as int) < a.len() && (i as int) < b.len());
                    assert(!(forall|j: int| 0 <= j < a.len() && j < b.len() ==> #[trigger] a[j] == b[j]));
                    assert(a == spec_components(self@));
                    assert(b == spec_components(base@));
                }
                return false;
            }
            i += 1;
        }
        true
    }

    /// Strips the given byte prefix from the path and returns the remaining
    /// bytes as a path.
    ///
    /// Returns `None` exactly when the path's bytes do not start with the
    /// prefix's bytes.
    pub fn strip_prefix(&self, prefix: &Path<'_>) -> (r: Option<Path<'a>>)
        ensures
            ({
                let ok = prefix@.len() <= self@.len() && self@.take(prefix@.len() as int)
                    == prefix@;
                match r {
                    Option::Some(rest) => ok && rest@ == self@.skip(prefix@.len() as int),
                    Option::None => !ok,
                }
            }),
    {
        let plen = prefix.bytes.len();
        if plen > self.bytes.len() {
            return None;
        }
        let head = vstd::slice::slice_subrange(self.bytes, 0, plen);
        if bytes_eq(head, prefix.bytes) {
            let rest = vstd::slice::slice_subrange(self.bytes, plen, self.bytes.len());
            Some(Path { bytes: rest })
        } else {
            None
        }
    }
}

/// Copies a component.
fn copy_component(c: &Component) -> (r: Component)
    ensures
        r@ == c@,
{
    match c {
        Component::RootDir => Component::RootDir,
        Component::CurDir => Component::CurDir,
        Component::ParentDir => Component::ParentDir,
        Component::Normal(name) => {
            let bytes = copy_range(name.as_slice(), 0, name.len());
            proof {
                assert(name@.subrange(0, name@.len() as int) =~= name@);
            }
            Component::Normal(bytes)
        }
    }
}

/// Compares two components.
fn component_eq(a: &Component, b: &Component) -> (r: bool)
    ensures
        r == (a@ == b@),
{
    match (a, b) {
        (Component::RootDir, Component::RootDir) => true,
        (Component::CurDir, Component::CurDir) => true,
        (Component::ParentDir, Component::ParentDir) => true,
        (Component::Normal(x), Component::Normal(y)) => bytes_eq(x.as_slice(), y.as_slice()),
        _ => false,
    }
}

/// Cursor over a path's components, from either end.
pub struct Components {
    /// The parsed components.
    comps: Vec<Component>,
    /// The index of the next component at the front.
    front: usize,
    /// The index one past the next component at the back.
    back: usize,
}

impl View for Components {
    type V = Seq<CompView>;

    closed spec fn view(&self) -> Seq<CompView> {
        if self.front <= self.back <= self.comps@.len() {
            views_of(self.comps@).subrange(self.front as int, self.back as int)
        } else {
            Seq::empty()
        }
    }
}

impl Components {
    /// Whether the cursor's ends are in order: a cursor that came from
    /// [`Path::components`] always is.
    pub closed spec fn wf(&self) -> bool {
        self.front <= self.back <= self.comps@.len()
    }

    /// Tells whether the cursor is exhausted.
    pub fn is_finished(&self) -> (r: bool)
        requires
            self.wf(),
        ensures
            r == (self@.len() == 0),
    {
        self.front >= self.back
    }

    /// Takes the next component from the front.
    pub fn next(&mut self) -> (r: Option<Component>)
        requires
            old(self).wf(),
        ensures
            final(self).wf(),
            match r {
                Option::Some(c) => old(self)@.len() > 0 && c@ == old(self)@[0] && final(self)@
                    == old(self)@.skip(1),
                Option::None => old(self)@.len() == 0 && final(self)@ == old(self)@,
            },
    {
        if self.front >= self.back {
            return None;
        }
        let c = copy_component(&self.comps[self.front]);
        self.front = self.front + 1;
        proof {
            assert(final(self)@ =~= old(self)@.skip(1));
        }
        Some(c)
    }

    /// Takes the next component from the back.
    pub fn next_back(&mut self) -> (r: Option<Component>)
        requires
            old(self).wf(),
        ensures
            final(self).wf(),
            match r {
                Option::Some(c) => old(self)@.len() > 0 && c@ == old(self)@.last() && final(self)@
                    == old(self)@.drop_last(),
                Option::None => old(self)@.len() == 0 && final(self)@ == old(self)@,
            },
    {
        if self.front >= self.back {
            return None;
        }
        let c = copy_component(&self.comps[self.back - 1]);
        self.back = self.back - 1;
        proof {
            assert(final(self)@ =~= old(self)@.drop_last());
        }
        Some(c)
    }
}

} // verus!
