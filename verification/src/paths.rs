//! Unix paths held as text: joining, components, file names and extensions,
//! following the rules of `std::path` for paths without a Windows prefix.
use crate::text::{string_views, concat, first_index, lemma_first_index_bound, split_on, split_spec, str_eq};
use vstd::prelude::*;
use vstd::string::*;

verus! {

/// `base.join(rest)`: an absolute `rest` replaces `base`; otherwise a separator
/// is added between them unless `base` is empty or already ends with one.
pub open spec fn join_spec(base: Seq<char>, rest: Seq<char>) -> Seq<char> {
    if rest.len() > 0 && rest[0] == '/' {
        rest
    } else if base.len() == 0 || base.last() == '/' {
        base + rest
    } else {
        base + seq!['/'] + rest
    }
}

/// The components of a path, as `Path::components` yields them: a leading
/// `/` is the root (written `"/"`), empty and `.` segments are dropped except
/// that a relative path that starts with `.` keeps it as its first component.
pub open spec fn components_spec(p: Seq<char>) -> Seq<Seq<char>> {
    let segs = split_spec(p, '/');
    let rest = segs.skip(1).filter(|c: Seq<char>| c.len() != 0 && c != seq!['.']);
    if p.len() > 0 && p[0] == '/' {
        seq![seq!['/']] + rest
    } else if segs[0] == seq!['.'] {
        seq![seq!['.']] + rest
    } else if segs[0].len() == 0 {
        rest
    } else {
        seq![segs[0]] + rest
    }
}

/// A component that names a file or directory (not the root, `.` or `..`).
pub open spec fn is_normal(c: Seq<char>) -> bool {
    c != seq!['/'] && c != seq!['.'] && c != seq!['.', '.']
}

/// `Path::file_name`: the last component when it is a normal one.
pub open spec fn file_name_spec(p: Seq<char>) -> Option<Seq<char>> {
    let cs = components_spec(p);
    if cs.len() > 0 && is_normal(cs.last()) {
        Some(cs.last())
    } else {
        None
    }
}

/// The index of the last `c` in `s`, if there is one.
pub open spec fn last_index(s: Seq<char>, c: char) -> Option<int>
    decreases s.len(),
{
    if s.len() == 0 {
        None
    } else if s.last() == c {
        Some(s.len() - 1)
    } else {
        last_index(s.drop_last(), c)
    }
}

/// The extension of a file name, as `Path::extension` gives it: the text after
/// the last `.`, when that `.` is not the first character and the name is not `..`.
pub open spec fn extension_spec(name: Seq<char>) -> Option<Seq<char>> {
    if name == seq!['.', '.'] {
        None
    } else {
        match last_index(name, '.') {
            Some(i) => if i > 0 {
                Some(name.skip(i + 1))
            } else {
                None
            },
            None => None,
        }
    }
}

/// Whether `suffix` is a suffix of `s`.
pub open spec fn ends_with_seq<A>(s: Seq<A>, suffix: Seq<A>) -> bool {
    suffix.len() <= s.len() && s.skip(s.len() - suffix.len()) == suffix
}

proof fn lemma_last_index(s: Seq<char>, c: char, i: int)
    requires
        -1 <= i < s.len(),
        forall|j: int| i < j < s.len() ==> s[j] != c,
        i >= 0 ==> s[i] == c,
    ensures
        last_index(s, c) == (if i >= 0 {
            Some(i)
        } else {
            None
        }),
    decreases s.len(),
{
    if s.len() > 0 && s.last() != c {
        let t = s.drop_last();
        assert forall|j: int| i < j < t.len() implies t[j] != c by {
            assert(t[j] == s[j]);
        }
        if i >= 0 {
            assert(t[i] == s[i]);
        }
        lemma_last_index(t, c, i);
    }
}

/// `Path::new(base).join(rest)`.
pub fn join(base: &str, rest: &str) -> (p: String)
    ensures
        p@ == join_spec(base@, rest@),
{
    let rn = rest.unicode_len();
    let bn = base.unicode_len();
    if rn > 0 && rest.get_char(0) == '/' {
        String::from_str(rest)
    } else if bn == 0 || base.get_char(bn - 1) == '/' {
        concat(base, rest)
    } else {
        let with_sep = concat(base, "/");
        proof {
            reveal_strlit("/");
        }
        concat(with_sep.as_str(), rest)
    }
}

/// The components of a path (see `components_spec`).
pub fn components(p: &str) -> (cs: Vec<String>)
    ensures
        string_views(cs@) == components_spec(p@),
{
    let segs = split_on(p, '/');
    let ghost gsegs = string_views(segs@);
    proof {
        reveal_strlit(".");
        reveal_strlit("/");
        assert(gsegs.len() >= 1) by {
            lemma_split_nonempty(p@, '/');
        }
    }
    let ghost pred = |c: Seq<char>| c.len() != 0 && c != seq!['.'];
    let mut rest: Vec<String> = Vec::new();
    let mut i: usize = 1;
    while i < segs.len()
        invariant
            gsegs == string_views(segs@),
            1 <= i <= segs@.len(),
            pred == (|c: Seq<char>| c.len() != 0 && c != seq!['.']),
            string_views(rest@) == gsegs.subrange(1, i as int).filter(pred),
        decreases segs.len() - i,
    {
        let seg = &segs[i];
        let keep = seg.as_str().unicode_len() != 0 && !str_eq(seg.as_str(), ".");
        proof {
            reveal_strlit(".");
            assert("."@ =~= seq!['.']);
            assert(gsegs.subrange(1, i + 1).drop_last() =~= gsegs.subrange(1, i as int));
            assert(gsegs[i as int] == seg@);
            assert(keep == pred(seg@));
        }
        if keep {
            rest.push(seg.clone());
        }
        proof {
            let old_sub = gsegs.subrange(1, i as int);
            assert(gsegs.subrange(1, i + 1) =~= old_sub.push(gsegs[i as int]));
            crate::seqs::lemma_filter_push(old_sub, pred, gsegs[i as int]);
        }
        i = i + 1;
    }
    proof {
        assert(gsegs.subrange(1, segs@.len() as int) =~= gsegs.skip(1));
    }
    let n = p.unicode_len();
    let first = &segs[0];
    proof {
        assert(gsegs[0] == first@);
    }
    let mut cs: Vec<String> = Vec::new();
    let ghost head: Seq<Seq<char>>;
    if n > 0 && p.get_char(0) == '/' {
        cs.push(String::from_str("/"));
        proof {
            reveal_strlit("/");
            assert("/"@ =~= seq!['/']);
            head = seq![seq!['/']];
            assert(string_views(cs@) =~= head);
        }
    } else if str_eq(first.as_str(), ".") {
        cs.push(String::from_str("."));
        proof {
            reveal_strlit(".");
            assert("."@ =~= seq!['.']);
            head = seq![seq!['.']];
            assert(string_views(cs@) =~= head);
        }
    } else if first.as_str().unicode_len() != 0 {
        cs.push(first.clone());
        proof {
            head = seq![first@];
            assert(string_views(cs@) =~= head);
        }
    } else {
        proof {
            head = Seq::empty();
            assert(string_views(cs@) =~= head);
        }
    }
    let mut j: usize = 0;
    while j < rest.len()
        invariant
            cs@.len() == head.len() + j,
            string_views(cs@) == head + string_views(rest@).take(
                j as int,
            ),
            j <= rest@.len(),
        decreases rest.len() - j,
    {
        let ghost prev = cs@;
        cs.push(rest[j].clone());
        proof {
            assert(string_views(cs@) =~= string_views(prev).push(
                rest@[j as int]@,
            ));
            assert(string_views(rest@).take(j + 1) =~= string_views(rest@).take(j as int).push(rest@[j as int]@));
            assert(string_views(cs@) =~= head + string_views(rest@).take(
                j + 1,
            ));
        }
        j = j + 1;
    }
    proof {
        assert(string_views(rest@).take(rest@.len() as int) =~= string_views(rest@));
        assert(string_views(segs@) == split_spec(p@, '/'));
        assert(string_views(cs@) =~= components_spec(p@));
    }
    cs
}

pub proof fn lemma_split_nonempty(s: Seq<char>, sep: char)
    ensures
        split_spec(s, sep).len() >= 1,
    decreases s.len(),
{
    let k = first_index(s, sep);
    lemma_first_index_bound(s, sep);
    if k < s.len() {
        lemma_split_nonempty(s.skip(k as int + 1), sep);
    }
}

/// `Path::new(p).file_name()`.
pub fn file_name(p: &str) -> (name: Option<String>)
    ensures
        name matches Some(n) ==> file_name_spec(p@) == Some(n@),
        name is None ==> file_name_spec(p@) is None,
{
    let cs = components(p);
    let ghost gcs = string_views(cs@);
    proof {
        reveal_strlit("/");
        reveal_strlit(".");
        reveal_strlit("..");
    }
    if cs.len() == 0 {
        return None;
    }
    let last = &cs[cs.len() - 1];
    proof {
        assert(gcs.len() == cs@.len());
        assert(gcs.last() == last@);
        assert("/"@ == seq!['/']);
        assert("."@ == seq!['.']);
        assert(".."@ == seq!['.', '.']);
    }
    if str_eq(last.as_str(), "/") || str_eq(last.as_str(), ".") || str_eq(last.as_str(), "..") {
        None
    } else {
        Some(last.clone())
    }
}

/// The extension of a file name (see `extension_spec`) compared with `ext`.
pub fn has_extension(name: &str, ext: &str) -> (b: bool)
    ensures
        b == (extension_spec(name@) == Some(ext@)),
{
    proof {
        reveal_strlit("..");
        assert(".."@ == seq!['.', '.']);
    }
    if str_eq(name, "..") {
        return false;
    }
    let n = name.unicode_len();
    let mut i: usize = n;
    while i > 0 && name.get_char(i - 1) != '.'
        invariant
            n == name@.len(),
            i <= n,
            forall|j: int| i <= j < n ==> name@[j] != '.',
        decreases i,
    {
        i = i - 1;
    }
    proof {
        lemma_last_index(name@, '.', i - 1);
    }
    if i <= 1 {
        return false;
    }
    let after = name.substring_char(i, n);
    proof {
        assert(after@ =~= name@.skip(i as int));
    }
    str_eq(after, ext)
}

/// Whether `suffix` names the last components of `relative` (`Path::ends_with`
/// on a relative path given by its components).
pub fn components_end_with(relative: &Vec<String>, suffix: &str) -> (b: bool)
    ensures
        b == ends_with_seq(string_views(relative@), components_spec(suffix@)),
{
    let want = components(suffix);
    let ghost r = string_views(relative@);
    let ghost w = string_views(want@);
    let rn = relative.len();
    let wn = want.len();
    if wn > rn {
        return false;
    }
    let off = rn - wn;
    let mut i: usize = 0;
    while i < wn
        invariant
            r == string_views(relative@),
            w == string_views(want@),
            w == components_spec(suffix@),
            rn == r.len(),
            wn == w.len(),
            off == rn - wn,
            i <= wn,
            forall|j: int| 0 <= j < i ==> r[off + j] == w[j],
        decreases wn - i,
    {
        if !str_eq(relative[off + i].as_str(), want[i].as_str()) {
            proof {
                assert(r[off + i] == relative@[off + i]@);
                assert(w[i as int] == want@[i as int]@);
                assert(r.skip(off as int)[i as int] == r[off + i]);
                assert(r.skip(off as int) != w);
                assert(r.len() - w.len() == off);
                assert(!ends_with_seq(r, w));
            }
            return false;
        }
        i = i + 1;
    }
    proof {
        assert(r.skip(off as int) =~= w);
    }
    true
}

} // verus!
