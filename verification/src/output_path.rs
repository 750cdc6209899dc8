//! Where the storage report may be written: paths are read component by
//! component (as `std::path::Path` reads them on Unix), must not climb with
//! `..`, and must lie under /tmp, /var/tmp or the working directory.
use vstd::prelude::*;
use crate::text::{chars_of, concat, split_chars, split_on};

verus! {

/// A part between slashes that names an entry (not empty, not ".").
pub open spec fn named_part(p: Seq<char>) -> bool {
    p.len() > 0 && p != seq!['.']
}

pub open spec fn has_root(s: Seq<char>) -> bool {
    s.len() > 0 && s[0] == '/'
}

/// A relative path that begins with the current directory (`.` or `./...`).
pub open spec fn leading_cur_dir(s: Seq<char>) -> bool {
    !has_root(s) && s.len() > 0 && s[0] == '.' && (s.len() == 1 || s[1] == '/')
}

/// The components of a path, each written as text: "/" for the root, "." for a
/// leading current directory, then the named parts (".." for a parent). Empty
/// parts and inner "." parts drop out.
pub open spec fn path_components(s: Seq<char>) -> Seq<Seq<char>> {
    (if has_root(s) {
        seq![seq!['/']]
    } else {
        Seq::empty()
    }) + (if leading_cur_dir(s) {
        seq![seq!['.']]
    } else {
        Seq::empty()
    }) + split_on(s, '/').filter(|p: Seq<char>| named_part(p))
}

/// `base.join(p)`: an absolute `p` replaces the base, otherwise `p` is appended
/// after a separator (none is added to an empty base or one ending in '/').
pub open spec fn joined(base: Seq<char>, p: Seq<char>) -> Seq<char> {
    if has_root(p) {
        p
    } else if base.len() > 0 && base.last() != '/' {
        base + seq!['/'] + p
    } else {
        base + p
    }
}

/// Whether path `a` starts with path `b`, component by component.
pub open spec fn path_starts_with(a: Seq<char>, b: Seq<char>) -> bool {
    path_components(b).is_prefix_of(path_components(a))
}

pub open spec fn traversal_message() -> Seq<char> {
    "Path traversal (..) is not allowed in output path"@
}

pub open spec fn location_message() -> Seq<char> {
    "Output path must be located within /tmp, /var/tmp, or the current working directory"@
}

/// The checked output path, given the working directory (or the error of
/// reading it): `/dev/null` as given; otherwise the absolute path (relative
/// paths are joined to the working directory), which must hold no ".." and must
/// lie under /tmp, /var/tmp or the working directory (an unreadable working
/// directory counts as the empty path).
pub open spec fn output_path_check(path: Seq<char>, cwd: Result<Seq<char>, Seq<char>>) -> Result<
    Seq<char>,
    Seq<char>,
> {
    if path_components(path) == path_components("/dev/null"@) {
        Ok(path)
    } else {
        let abs = if has_root(path) {
            Ok(path)
        } else {
            match cwd {
                Ok(c) => Ok(joined(c, path)),
                Err(e) => Err("Failed to get current directory: "@ + e),
            }
        };
        match abs {
            Err(e) => Err(e),
            Ok(a) => if path_components(a).contains(".."@) {
                Err(traversal_message())
            } else {
                let base = match cwd {
                    Ok(c) => c,
                    Err(_) => Seq::<char>::empty(),
                };
                if path_starts_with(a, "/tmp"@) || path_starts_with(a, "/var/tmp"@) || path_starts_with(a, base) {
                    Ok(a)
                } else {
                    Err(location_message())
                }
            },
        }
    }
}

pub open spec fn parts_view(v: Seq<Vec<char>>) -> Seq<Seq<char>> {
    v.map_values(|p: Vec<char>| p@)
}

fn one_char(c: char) -> (r: Vec<char>)
    ensures
        r@ == seq![c],
{
    let mut r: Vec<char> = Vec::new();
    r.push(c);
    assert(r@ =~= seq![c]);
    r
}

/// The components of a path (see `path_components`).
fn components_of(s: &str) -> (r: Vec<Vec<char>>)
    ensures
        parts_view(r@) == path_components(s@),
{
    let cs = chars_of(s);
    let root = cs.len() > 0 && cs[0] == '/';
    let cur = !root && cs.len() > 0 && cs[0] == '.' && (cs.len() == 1 || cs[1] == '/');
    let mut out: Vec<Vec<char>> = Vec::new();
    if root {
        out.push(one_char('/'));
    }
    if cur {
        out.push(one_char('.'));
    }
    let ghost head = parts_view(out@);
    assert(head =~= (if has_root(s@) {
        seq![seq!['/']]
    } else {
        Seq::empty()
    }) + (if leading_cur_dir(s@) {
        seq![seq!['.']]
    } else {
        Seq::empty()
    }));
    let parts = split_chars(cs.as_slice(), '/');
    let ghost pv = parts_view(parts@);
    let ghost pred = |p: Seq<char>| named_part(p);
    let mut i: usize = 0;
    while i < parts.len()
        invariant
            i <= parts.len(),
            pv == parts_view(parts@),
            pv == split_on(s@, '/'),
            pred == (|p: Seq<char>| named_part(p)),
            parts_view(out@) == head + pv.take(i as int).filter(pred),
        decreases parts.len() - i,
    {
        proof {
            assert(pv.take(i + 1) =~= pv.take(i as int).push(pv[i as int]));
            pv.take(i as int).lemma_filter_push(pv[i as int], pred);
        }
        let p = &parts[i];
        let named = p.len() > 0 && !(p.len() == 1 && p[0] == '.');
        proof {
            if p.len() == 1 && p[0] == '.' {
                assert(p@ =~= seq!['.']);
            }
            if p@ == seq!['.'] {
                assert(p@[0] == '.');
            }
        }
        assert(named == named_part(pv[i as int]));
        if named {
            let ghost before = parts_view(out@);
            out.push(p.clone());
            assert(parts_view(out@) =~= before.push(p@));
        }
        i = i + 1;
    }
    assert(pv.take(parts.len() as int) =~= pv);
    out
}

fn same_parts(a: &Vec<char>, b: &Vec<char>) -> (r: bool)
    ensures
        r == (a@ == b@),
{
    crate::text::chars_eq(a.as_slice(), b.as_slice())
}

/// Whether the components `a` begin with the components `b`.
fn components_start_with(a: &Vec<Vec<char>>, b: &Vec<Vec<char>>) -> (r: bool)
    ensures
        r == parts_view(b@).is_prefix_of(parts_view(a@)),
{
    let ghost av = parts_view(a@);
    let ghost bv = parts_view(b@);
    if b.len() > a.len() {
        return false;
    }
    let mut i: usize = 0;
    while i < b.len()
        invariant
            i <= b.len() <= a.len(),
            av == parts_view(a@),
            bv == parts_view(b@),
            forall|k: int| 0 <= k < i ==> av[k] == bv[k],
        decreases b.len() - i,
    {
        if !same_parts(&a[i], &b[i]) {
            assert(av[i as int] != bv[i as int]);
            assert(av.subrange(0, bv.len() as int)[i as int] != bv[i as int]);
            return false;
        }
        i = i + 1;
    }
    assert(bv =~= av.subrange(0, bv.len() as int));
    true
}

/// Whether some component is "..".
fn climbs(a: &Vec<Vec<char>>) -> (r: bool)
    ensures
        r == parts_view(a@).contains(".."@),
{
    let ghost av = parts_view(a@);
    let dots = chars_of("..");
    let mut i: usize = 0;
    while i < a.len()
        invariant
            i <= a.len(),
            av == parts_view(a@),
            dots@ == ".."@,
            forall|k: int| 0 <= k < i ==> av[k] != ".."@,
        decreases a.len() - i,
    {
        if crate::text::chars_eq(a[i].as_slice(), dots.as_slice()) {
            assert(av[i as int] == ".."@);
            return true;
        }
        i = i + 1;
    }
    false
}

/// `base.join(p)` (see `joined`).
fn join_path(base: &str, p: &str) -> (r: String)
    ensures
        r@ == joined(base@, p@),
{
    let ps = chars_of(p);
    let bs = chars_of(base);
    if ps.len() > 0 && ps[0] == '/' {
        p.to_string()
    } else if bs.len() > 0 && bs[bs.len() - 1] != '/' {
        let with_sep = concat(base, "/");
        proof {
            reveal_strlit("/");
            assert("/"@ =~= seq!['/']);
        }
        concat(with_sep.as_str(), p)
    } else {
        concat(base, p)
    }
}

/// Checks an output path against the working directory `cwd` (or the message
/// of the error met reading it); see `output_path_check`.
pub fn validate_output_path(path: &str, cwd: &Result<String, String>) -> (r: Result<String, String>)
    ensures
        match output_path_check(
            path@,
            match cwd {
                Ok(c) => Ok(c@),
                Err(e) => Err(e@),
            },
        ) {
            Ok(a) => r matches Ok(s) && s@ == a,
            Err(m) => r matches Err(e) && e@ == m,
        },
{
    let ghost cv: Result<Seq<char>, Seq<char>> = match cwd {
        Ok(c) => Ok(c@),
        Err(e) => Err(e@),
    };
    let comps = components_of(path);
    let null_comps = components_of("/dev/null");
    if components_start_with(&comps, &null_comps) && comps.len() == null_comps.len() {
        assert(parts_view(comps@) =~= parts_view(null_comps@));
        return Ok(path.to_string());
    }
    assert(parts_view(comps@) != parts_view(null_comps@));
    let ps = chars_of(path);
    let abs = if ps.len() > 0 && ps[0] == '/' {
        path.to_string()
    } else {
        match cwd {
            Ok(c) => join_path(c.as_str(), path),
            Err(e) => {
                return Err(concat("Failed to get current directory: ", e.as_str()));
            },
        }
    };
    let abs_comps = components_of(abs.as_str());
    if climbs(&abs_comps) {
        return Err("Path traversal (..) is not allowed in output path".to_string());
    }
    let base = match cwd {
        Ok(c) => c.clone(),
        Err(_) => String::new(),
    };
    proof {
        assert(base@ == (match cv {
            Ok(c) => c,
            Err(_) => Seq::<char>::empty(),
        }));
    }
    let in_tmp = components_start_with(&abs_comps, &components_of("/tmp"));
    let in_var_tmp = components_start_with(&abs_comps, &components_of("/var/tmp"));
    let in_cwd = components_start_with(&abs_comps, &components_of(base.as_str()));
    if in_tmp || in_var_tmp || in_cwd {
        Ok(abs)
    } else {
        Err(
            "Output path must be located within /tmp, /var/tmp, or the current working directory".to_string(),
        )
    }
}

} // verus!
