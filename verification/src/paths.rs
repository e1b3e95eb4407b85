//! Path handling for received files.
//!
//! A collection entry names its file with forward-slash separated
//! components. Before anything is written to disk the name is sanitized:
//! empty components, `.`, `..` and components holding a separator are
//! rejected, and the export path is the output directory plus the sanitized
//! name, so every write stays inside the output directory.

use vstd::prelude::*;

use crate::text::{
    chars_of, contains_char, push_chars, split_char, string_from_chars, split_at_seps, views_of,
    chars_eq, decimal_of, join_char, join_with, push_decimal, sub_vec,
};

verus! {

/// Why a name was rejected.
#[derive(Clone, Copy, Debug, PartialEq, Eq, Structural)]
pub enum PathError {
    /// A component is empty.
    EmptyComponent,
    /// A component is `.` or `..`.
    Traversal,
    /// A component holds a path separator.
    SeparatorInComponent,
    /// The path is absolute where a relative one is required.
    AbsoluteNotAllowed,
}

impl PathError {
    /// The error's diagnostic text.
    pub open spec fn message_spec(self) -> Seq<char> {
        match self {
            PathError::EmptyComponent => "empty path component"@,
            PathError::Traversal => "path traversal attempt"@,
            PathError::SeparatorInComponent => "path separator in component"@,
            PathError::AbsoluteNotAllowed => "absolute path not allowed"@,
        }
    }

    /// A short diagnostic for the error.
    pub fn message(&self) -> (r: &'static str)
        ensures
            r@ == self.message_spec(),
    {
        match self {
            PathError::EmptyComponent => "empty path component",
            PathError::Traversal => "path traversal attempt",
            PathError::SeparatorInComponent => "path separator in component",
            PathError::AbsoluteNotAllowed => "absolute path not allowed",
        }
    }
}

/// The views of a vector of strings.
pub open spec fn str_views(parts: Seq<String>) -> Seq<Seq<char>> {
    parts.map_values(|p: String| p@)
}

/// Pushing a string extends the views by its view.
proof fn lemma_str_views_push(parts: Seq<String>, x: String)
    ensures
        str_views(parts.push(x)) =~= str_views(parts).push(x@),
{
}

/// A path component that may be written under the output directory:
/// nonempty, not `.` or `..`, and free of separators.
pub open spec fn valid_component(p: Seq<char>) -> bool {
    &&& p.len() > 0
    &&& p != seq!['.']
    &&& p != seq!['.', '.']
    &&& !p.contains('/')
    &&& !p.contains('\\')
}

/// A name whose every slash-separated component is valid.
pub open spec fn valid_name(name: Seq<char>) -> bool {
    let parts = split_at_seps(name, '/');
    forall|i: int| 0 <= i < parts.len() ==> valid_component(#[trigger] parts[i])
}

/// The first reason a name is rejected, scanning its components in
/// order: an empty component, a `.` or `..` component, or a component
/// holding a backslash.
pub open spec fn name_violation(parts: Seq<Seq<char>>) -> Option<PathError>
    decreases parts.len(),
{
    if parts.len() == 0 {
        None
    } else if parts[0].len() == 0 {
        Some(PathError::EmptyComponent)
    } else if parts[0] == seq!['.'] || parts[0] == seq!['.', '.'] {
        Some(PathError::Traversal)
    } else if parts[0].contains('\\') {
        Some(PathError::SeparatorInComponent)
    } else {
        name_violation(parts.drop_first())
    }
}

/// No piece of a split contains the separator it was split on.
pub proof fn lemma_split_parts_free(s: Seq<char>, sep: char)
    ensures
        forall|i: int|
            0 <= i < split_at_seps(s, sep).len() ==> !(#[trigger] split_at_seps(s, sep)[i]).contains(
                sep,
            ),
    decreases s.len(),
{
    if s.len() == 0 {
        assert(split_at_seps(s, sep) == seq![Seq::<char>::empty()]);
        assert(!Seq::<char>::empty().contains(sep));
    } else {
        lemma_split_parts_free(s.drop_first(), sep);
        let rest = split_at_seps(s.drop_first(), sep);
        if s[0] == sep {
            assert(split_at_seps(s, sep) == seq![Seq::<char>::empty()] + rest);
            assert(forall|i: int|
                0 <= i < split_at_seps(s, sep).len() ==> !(#[trigger] split_at_seps(
                    s,
                    sep,
                )[i]).contains(sep)) by {
                assert(!Seq::<char>::empty().contains(sep));
                assert(forall|i: int|
                    1 <= i < split_at_seps(s, sep).len() ==> split_at_seps(s, sep)[i] == rest[i
                        - 1]);
            }
        } else {
            crate::text::lemma_split_len(s.drop_first(), sep);
            assert(split_at_seps(s, sep) == seq![seq![s[0]] + rest[0]] + rest.drop_first());
            assert(!(seq![s[0]] + rest[0]).contains(sep)) by {
                assert(!rest[0].contains(sep));
                assert(forall|j: int|
                    0 <= j < (seq![s[0]] + rest[0]).len() ==> (seq![s[0]] + rest[0])[j] != sep)
                    by {
                    assert(forall|j: int|
                        1 <= j < (seq![s[0]] + rest[0]).len() ==> (seq![s[0]] + rest[0])[j]
                            == rest[0][j - 1]);
                }
            }
            assert(forall|i: int|
                0 <= i < split_at_seps(s, sep).len() ==> !(#[trigger] split_at_seps(
                    s,
                    sep,
                )[i]).contains(sep)) by {
                assert(forall|i: int|
                    1 <= i < split_at_seps(s, sep).len() ==> split_at_seps(s, sep)[i]
                        == rest.drop_first()[i - 1]);
                assert(forall|i: int|
                    0 <= i < rest.drop_first().len() ==> rest.drop_first()[i] == rest[i + 1]);
            }
        }
    }
}

/// Splits `name` into its components, rejecting any that could escape the
/// output directory. `Ok` exactly for valid names, and then the components
/// are the slash-separated pieces of the name, in order.
pub fn sanitize_name(name: &str) -> (r: Result<Vec<String>, PathError>)
    ensures
        r is Ok <==> valid_name(name@),
        r is Ok ==> str_views(r->Ok_0@) == split_at_seps(name@, '/'),
        r matches Err(e) ==> name_violation(split_at_seps(name@, '/')) == Some(e),
{
    let chars = chars_of(name);
    let parts = split_char(&chars, '/');
    proof {
        lemma_split_parts_free(name@, '/');
        assert(views_of(parts@).skip(0) =~= views_of(parts@));
    }
    let mut out: Vec<String> = Vec::new();
    let mut i: usize = 0;
    while i < parts.len()
        invariant
            0 <= i <= parts@.len(),
            views_of(parts@) == split_at_seps(name@, '/'),
            forall|j: int| 0 <= j < i ==> valid_component(#[trigger] views_of(parts@)[j]),
            name_violation(views_of(parts@)) == name_violation(views_of(parts@).skip(i as int)),
            str_views(out@) == views_of(parts@).take(i as int),
        decreases parts@.len() - i,
    {
        let p = &parts[i];
        let ghost restv = views_of(parts@).skip(i as int);
        proof {
            assert(views_of(parts@)[i as int] == p@);
            assert(restv.len() > 0);
            assert(restv[0] == p@);
            assert(restv.drop_first() =~= views_of(parts@).skip(i as int + 1));
        }
        if p.len() == 0 {
            proof {
                assert(split_at_seps(name@, '/')[i as int].len() == 0);
                assert(!valid_component(split_at_seps(name@, '/')[i as int]));
                assert(!valid_name(name@));
                assert(name_violation(restv) == Some(PathError::EmptyComponent));
            }
            return Err(PathError::EmptyComponent);
        }
        if p.len() == 1 && p[0] == '.' {
            proof {
                assert(p@ =~= seq!['.']);
                assert(split_at_seps(name@, '/')[i as int] == seq!['.']);
                assert(!valid_component(split_at_seps(name@, '/')[i as int]));
                assert(!valid_name(name@));
                assert(name_violation(restv) == Some(PathError::Traversal));
            }
            return Err(PathError::Traversal);
        }
        if p.len() == 2 && p[0] == '.' && p[1] == '.' {
            proof {
                assert(p@ =~= seq!['.', '.']);
                assert(split_at_seps(name@, '/')[i as int] == seq!['.', '.']);
                assert(!valid_component(split_at_seps(name@, '/')[i as int]));
                assert(!valid_name(name@));
                assert(name_violation(restv) == Some(PathError::Traversal));
            }
            return Err(PathError::Traversal);
        }
        if contains_char(p, '\\') {
            proof {
                assert(split_at_seps(name@, '/')[i as int].contains('\\'));
                assert(!valid_component(split_at_seps(name@, '/')[i as int]));
                assert(!valid_name(name@));
                assert(name_violation(restv) == Some(PathError::SeparatorInComponent));
            }
            return Err(PathError::SeparatorInComponent);
        }
        proof {
            if p@ == seq!['.'] {
                assert(p@.len() == 1 && p@[0] == '.');
            }
            if p@ == seq!['.', '.'] {
                assert(p@.len() == 2 && p@[0] == '.' && p@[1] == '.');
            }
            lemma_split_parts_free(name@, '/');
            assert(split_at_seps(name@, '/')[i as int] == p@);
            assert(!split_at_seps(name@, '/')[i as int].contains('/'));
            assert(!p@.contains('/'));
            assert(valid_component(p@));
            assert(name_violation(restv) == name_violation(restv.drop_first()));
        }
        let ghost out0 = out@;
        out.push(string_from_chars(p));
        proof {
            lemma_str_views_push(out0, out@.last());
            assert(out@ == out0.push(out@.last()));
            assert(out@.last()@ == p@);
            assert(views_of(parts@).take(i + 1 as int) =~= views_of(parts@).take(i as int).push(
                views_of(parts@)[i as int],
            ));
            assert(str_views(out@) =~= views_of(parts@).take(i + 1 as int));
        }
        i = i + 1;
    }
    proof {
        assert(views_of(parts@).take(parts@.len() as int) =~= views_of(parts@));
        assert(valid_name(name@));
    }
    Ok(out)
}

/// The export path for `name` under `output_dir`: the directory, a slash,
/// then the name. `Ok` exactly for valid names.
pub fn export_path(output_dir: &str, name: &str) -> (r: Result<String, PathError>)
    ensures
        r is Ok <==> valid_name(name@),
        r is Ok ==> r->Ok_0@ == output_dir@ + seq!['/'] + name@,
        r matches Err(e) ==> name_violation(split_at_seps(name@, '/')) == Some(e),
{
    match sanitize_name(name) {
        Err(e) => Err(e),
        Ok(_parts) => {
            let mut path = chars_of(output_dir);
            path.push('/');
            let nm = chars_of(name);
            push_chars(&mut path, &nm);
            proof {
                assert(path@ =~= output_dir@ + seq!['/'] + name@);
            }
            Ok(string_from_chars(&path))
        },
    }
}

/// Every export path stays inside the output directory: it extends
/// `output_dir` by a slash, and each component of the remainder is
/// nonempty and neither `.` nor `..`.
pub proof fn lemma_export_path_within(output_dir: Seq<char>, name: Seq<char>)
    requires
        valid_name(name),
    ensures
        (output_dir + seq!['/'] + name).subrange(0, output_dir.len() as int) == output_dir,
        (output_dir + seq!['/'] + name).len() > output_dir.len(),
        forall|i: int|
            0 <= i < split_at_seps(name, '/').len() ==> (#[trigger] split_at_seps(
                name,
                '/',
            )[i]).len() > 0 && split_at_seps(name, '/')[i] != seq!['.'] && split_at_seps(
                name,
                '/',
            )[i] != seq!['.', '.'],
{
    let p = output_dir + seq!['/'] + name;
    assert(p.subrange(0, output_dir.len() as int) =~= output_dir);
}

/// Sanitizing is idempotent: each component of a valid name is itself a
/// valid name whose only component is itself.
pub proof fn lemma_sanitize_idempotent(name: Seq<char>)
    requires
        valid_name(name),
    ensures
        forall|i: int|
            0 <= i < split_at_seps(name, '/').len() ==> valid_name(
                #[trigger] split_at_seps(name, '/')[i],
            ) && split_at_seps(split_at_seps(name, '/')[i], '/') == seq![
                split_at_seps(name, '/')[i],
            ],
{
    let parts = split_at_seps(name, '/');
    assert forall|i: int| 0 <= i < parts.len() implies valid_name(#[trigger] parts[i])
        && split_at_seps(parts[i], '/') == seq![parts[i]] by {
        let p = parts[i];
        assert(valid_component(p));
        crate::text::lemma_split_prepend(p, Seq::<char>::empty(), '/');
        assert(p + Seq::<char>::empty() =~= p);
        assert(split_at_seps(Seq::<char>::empty(), '/') == seq![Seq::<char>::empty()]);
        assert(p + split_at_seps(Seq::<char>::empty(), '/')[0] =~= p);
        assert(split_at_seps(p, '/') =~= seq![p]);
    }
}

/// Index of the last `.` in the final path component of `s`, or `-1` when
/// that component has none.
pub open spec fn last_dot(s: Seq<char>) -> int
    decreases s.len(),
{
    if s.len() == 0 {
        -1
    } else if s.last() == '.' {
        s.len() - 1
    } else if s.last() == '/' {
        -1
    } else {
        last_dot(s.drop_last())
    }
}

/// Whether the name has an extension to keep while renaming: a dot in its
/// final component that neither starts the name nor starts that component.
pub open spec fn has_extension(s: Seq<char>) -> bool {
    last_dot(s) >= 1 && s[last_dot(s) - 1] != '/'
}

/// The `k`-th renamed candidate for a conflicting file name: `stem (k).ext`
/// when the name has an extension, `name (k)` otherwise. A leading dot does
/// not start an extension.
pub open spec fn rename_candidate_spec(name: Seq<char>, k: nat) -> Seq<char> {
    let d = last_dot(name);
    if has_extension(name) {
        name.subrange(0, d) + seq![' ', '('] + decimal_of(k) + seq![')', '.'] + name.subrange(
            d + 1,
            name.len() as int,
        )
    } else {
        name + seq![' ', '('] + decimal_of(k) + seq![')']
    }
}

/// Index of the last `.` in the name's final component, when there is one.
fn find_last_dot(name: &Vec<char>) -> (r: Option<usize>)
    ensures
        r is Some ==> last_dot(name@) == r->0 && r->0 < name@.len(),
        r is None ==> last_dot(name@) == -1,
{
    let mut j: usize = name.len();
    proof {
        assert(name@.subrange(0, j as int) =~= name@);
    }
    while j > 0
        invariant
            j <= name@.len(),
            last_dot(name@) == last_dot(name@.subrange(0, j as int)),
        decreases j,
    {
        let c = name[j - 1];
        proof {
            assert(name@.subrange(0, j as int).last() == c);
            assert(name@.subrange(0, j as int).drop_last() =~= name@.subrange(0, j as int - 1));
        }
        if c == '.' {
            return Some(j - 1);
        }
        if c == '/' {
            return None;
        }
        j = j - 1;
    }
    proof {
        assert(name@.subrange(0, 0) =~= Seq::<char>::empty());
    }
    None
}

/// The `k`-th renamed candidate for a conflicting name.
pub fn rename_candidate(name: &Vec<char>, k: u64) -> (r: Vec<char>)
    ensures
        r@ == rename_candidate_spec(name@, k as nat),
{
    let d_opt = find_last_dot(name);
    let mut out: Vec<char> = Vec::new();
    let has_ext: bool = match d_opt {
        Some(d) => d >= 1 && name[d - 1] != '/',
        None => false,
    };
    if has_ext {
        let d = match d_opt {
            Some(d) => d,
            None => 0,
        };
        proof {
            assert(d_opt is Some);
            assert(d == d_opt->0);
            assert(1 <= d < name@.len());
        }
        let stem = sub_vec(name, 0, d);
        push_chars(&mut out, &stem);
        out.push(' ');
        out.push('(');
        push_decimal(k, &mut out);
        out.push(')');
        out.push('.');
        let n = name.len();
        assert(d < n);
        let ext = sub_vec(name, d + 1, n);
        push_chars(&mut out, &ext);
        proof {
            assert(out@ =~= rename_candidate_spec(name@, k as nat));
        }
    } else {
        push_chars(&mut out, name);
        out.push(' ');
        out.push('(');
        push_decimal(k, &mut out);
        out.push(')');
        proof {
            assert(out@ =~= rename_candidate_spec(name@, k as nat));
        }
    }
    out
}

/// The first free candidate at index `k` or beyond, or the base name when
/// every index up to 1000 is taken.
pub open spec fn first_free_from(base: Seq<char>, occ: Seq<Seq<char>>, k: nat) -> Seq<char>
    decreases 1000 - k,
{
    if k >= 1000 {
        base
    } else if !occ.contains(rename_candidate_spec(base, k)) {
        rename_candidate_spec(base, k)
    } else {
        first_free_from(base, occ, k + 1)
    }
}

/// The name a conflicting file is renamed to: the base name itself when it
/// is free, else the first free `base (k)` candidate for `k` in `[1, 1000)`,
/// else the base name.
pub open spec fn avail_name_spec(base: Seq<char>, occ: Seq<Seq<char>>) -> Seq<char> {
    if !occ.contains(base) {
        base
    } else {
        first_free_from(base, occ, 1)
    }
}

/// Whether any of the taken names has exactly the characters `x`.
pub fn name_taken(occ: &Vec<String>, x: &Vec<char>) -> (r: bool)
    ensures
        r <==> str_views(occ@).contains(x@),
{
    let mut i: usize = 0;
    while i < occ.len()
        invariant
            0 <= i <= occ@.len(),
            forall|j: int| 0 <= j < i ==> str_views(occ@)[j] != x@,
        decreases occ@.len() - i,
    {
        let oc = chars_of(occ[i].as_str());
        if chars_eq(&oc, x) {
            proof {
                assert(str_views(occ@)[i as int] == x@);
            }
            return true;
        }
        proof {
            assert(str_views(occ@)[i as int] == occ@[i as int]@);
        }
        i = i + 1;
    }
    proof {
        if str_views(occ@).contains(x@) {
            let j = choose|j: int| 0 <= j < str_views(occ@).len() && str_views(occ@)[j] == x@;
            assert(str_views(occ@)[j] != x@);
        }
    }
    false
}

/// Picks the name a conflicting file is written under: the base name when no
/// taken name matches it, else the first free renamed candidate.
pub fn find_available_name(base: &str, occupied: &Vec<String>) -> (r: String)
    ensures
        r@ == avail_name_spec(base@, str_views(occupied@)),
{
    let base_chars = chars_of(base);
    if !name_taken(occupied, &base_chars) {
        return base.to_owned();
    }
    let ghost occ = str_views(occupied@);
    let mut k: u64 = 1;
    while k < 1000
        invariant
            1 <= k <= 1000,
            occ == str_views(occupied@),
            base_chars@ == base@,
            occ.contains(base@),
            first_free_from(base@, occ, 1) == first_free_from(base@, occ, k as nat),
        decreases 1000 - k,
    {
        let cand = rename_candidate(&base_chars, k);
        if !name_taken(occupied, &cand) {
            proof {
                assert(cand@ == rename_candidate_spec(base@, k as nat));
                assert(!occ.contains(rename_candidate_spec(base@, k as nat)));
                assert(first_free_from(base@, occ, k as nat) == rename_candidate_spec(
                    base@,
                    k as nat,
                ));
            }
            return string_from_chars(&cand);
        }
        proof {
            assert(occ.contains(rename_candidate_spec(base@, k as nat)));
            assert(first_free_from(base@, occ, k as nat) == first_free_from(
                base@,
                occ,
                k as nat + 1,
            ));
        }
        k = k + 1;
    }
    proof {
        assert(first_free_from(base@, occ, 1000) == base@);
    }
    base.to_owned()
}


/// The first reason a path cannot become a transfer name, scanning its
/// slash-separated parts in order: a `..` part, or a part holding a
/// backslash. Empty parts and `.` are dropped, not rejected.
pub open spec fn first_violation(parts: Seq<Seq<char>>) -> Option<PathError>
    decreases parts.len(),
{
    if parts.len() == 0 {
        None
    } else if parts[0] == seq!['.', '.'] {
        Some(PathError::Traversal)
    } else if parts[0].contains('\\') {
        Some(PathError::SeparatorInComponent)
    } else {
        first_violation(parts.drop_first())
    }
}

/// The parts that survive normalization: nonempty ones other than `.`.
pub open spec fn kept_parts(parts: Seq<Seq<char>>) -> Seq<Seq<char>>
    decreases parts.len(),
{
    if parts.len() == 0 {
        Seq::<Seq<char>>::empty()
    } else {
        let front = kept_parts(parts.drop_last());
        if parts.last().len() > 0 && parts.last() != seq!['.'] {
            front.push(parts.last())
        } else {
            front
        }
    }
}

/// What a filesystem path becomes as a transfer name: its normalized parts
/// joined with forward slashes, with a leading slash kept only for absolute
/// paths, which are rejected where a relative path is required.
pub open spec fn canonical_name_spec(path: Seq<char>, must_be_relative: bool) -> Result<
    Seq<char>,
    PathError,
> {
    let parts = split_at_seps(path, '/');
    let absolute = path.len() > 0 && path[0] == '/';
    if absolute && must_be_relative {
        Err(PathError::AbsoluteNotAllowed)
    } else {
        match first_violation(parts) {
            Some(e) => Err(e),
            None => Ok(
                (if absolute {
                    seq!['/']
                } else {
                    Seq::<char>::empty()
                }) + join_with(kept_parts(parts), '/'),
            ),
        }
    }
}

/// Turns a filesystem path into a transfer name with forward slashes,
/// dropping `.` and empty parts and rejecting `..`, backslashes in parts,
/// and, where required, absolute paths.
pub fn canonicalized_path_to_string(path: &str, must_be_relative: bool) -> (r: Result<
    String,
    PathError,
>)
    ensures
        r is Ok <==> canonical_name_spec(path@, must_be_relative) is Ok,
        r is Ok ==> r->Ok_0@ == canonical_name_spec(path@, must_be_relative)->Ok_0,
        r is Err ==> r->Err_0 == canonical_name_spec(path@, must_be_relative)->Err_0,
{
    let chars = chars_of(path);
    let absolute = chars.len() > 0 && chars[0] == '/';
    if absolute && must_be_relative {
        return Err(PathError::AbsoluteNotAllowed);
    }
    let parts = split_char(&chars, '/');
    let ghost all = views_of(parts@);
    let mut kept: Vec<Vec<char>> = Vec::new();
    let mut i: usize = 0;
    proof {
        assert(all.skip(0) =~= all);
        assert(all.take(0) =~= Seq::<Seq<char>>::empty());
        assert(views_of(kept@) =~= kept_parts(all.take(0)));
    }
    while i < parts.len()
        invariant
            0 <= i <= parts@.len(),
            all == views_of(parts@),
            all == split_at_seps(path@, '/'),
            !(path@.len() > 0 && path@[0] == '/' && must_be_relative),
            first_violation(all) == first_violation(all.skip(i as int)),
            views_of(kept@) == kept_parts(all.take(i as int)),
        decreases parts@.len() - i,
    {
        let ghost rest = all.skip(i as int);
        proof {
            assert(rest.len() > 0);
            assert(rest[0] == all[i as int]);
            assert(rest.drop_first() =~= all.skip(i as int + 1));
        }
        let p = &parts[i];
        proof {
            assert(p@ == all[i as int]);
        }
        if p.len() == 2 && p[0] == '.' && p[1] == '.' {
            proof {
                assert(p@ =~= seq!['.', '.']);
                assert(first_violation(rest) == Some(PathError::Traversal));
            }
            return Err(PathError::Traversal);
        }
        proof {
            if p@ == seq!['.', '.'] {
                assert(p@.len() == 2 && p@[0] == '.' && p@[1] == '.');
            }
        }
        if contains_char(p, '\\') {
            proof {
                assert(first_violation(rest) == Some(PathError::SeparatorInComponent));
            }
            return Err(PathError::SeparatorInComponent);
        }
        let keep: bool = if p.len() == 0 {
            false
        } else if p.len() == 1 && p[0] == '.' {
            proof {
                assert(p@ =~= seq!['.']);
            }
            false
        } else {
            proof {
                if p@ == seq!['.'] {
                    assert(p@.len() == 1 && p@[0] == '.');
                }
            }
            true
        };
        let ghost kept0 = kept@;
        if keep {
            let part = sub_vec(p, 0, p.len());
            proof {
                assert(part@ =~= p@);
            }
            kept.push(part);
        }
        proof {
            assert(all.take(i as int + 1).drop_last() =~= all.take(i as int));
            assert(all.take(i as int + 1).last() == all[i as int]);
            if keep {
                crate::text::lemma_views_push(kept0, kept@.last());
                assert(kept@ == kept0.push(kept@.last()));
                assert(views_of(kept@) =~= kept_parts(all.take(i as int + 1)));
            } else {
                assert(views_of(kept@) =~= kept_parts(all.take(i as int + 1)));
            }
            assert(first_violation(rest) == first_violation(all.skip(i as int + 1)));
        }
        i = i + 1;
    }
    proof {
        assert(all.skip(i as int) =~= Seq::<Seq<char>>::empty());
        assert(first_violation(all) is None);
        assert(all.take(i as int) =~= all);
    }
    let joined = join_char(&kept, '/');
    let mut out: Vec<char> = Vec::new();
    if absolute {
        out.push('/');
    }
    push_chars(&mut out, &joined);
    proof {
        if absolute {
            assert(out@ =~= seq!['/'] + join_with(kept_parts(all), '/'));
        } else {
            assert(out@ =~= Seq::<char>::empty() + join_with(kept_parts(all), '/'));
        }
    }
    Ok(string_from_chars(&out))
}


} // verus!
