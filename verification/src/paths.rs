//! Path text handled as `std::path` handles Unix paths: `/` separates the
//! components, empty and `.` components are dropped (a leading `.` stays a
//! current-directory component), and `..` is the parent directory. The file
//! name of a path (and so its stem and extension) also ends at a `\`, as it
//! does for the Windows paths the application stores.
use vstd::prelude::*;
use crate::text::{
    push_char, split_chars, split_on, chars_of, string_of, string_of_range, replace_char,
    replace_char_exec,
};

verus! {

broadcast use vstd::string::group_string_axioms;

/// `.`
pub open spec fn is_dot(p: Seq<char>) -> bool {
    p == seq!['.']
}

/// `..`
pub open spec fn is_dotdot(p: Seq<char>) -> bool {
    p == seq!['.', '.']
}

/// The last piece that is a component (not empty, not `.`).
pub open spec fn last_component(pieces: Seq<Seq<char>>) -> Option<Seq<char>>
    decreases pieces.len(),
{
    if pieces.len() == 0 {
        None
    } else if pieces.last().len() == 0 || is_dot(pieces.last()) {
        last_component(pieces.drop_last())
    } else {
        Some(pieces.last())
    }
}

/// `Path::file_name`: the last component, unless it is `..`; `/` and `\`
/// both separate components.
pub open spec fn file_name(path: Seq<char>) -> Option<Seq<char>> {
    match last_component(split_on(replace_char(path, '\\', '/'), '/')) {
        Some(p) => if is_dotdot(p) {
            None
        } else {
            Some(p)
        },
        None => None,
    }
}

/// The index of the last `.` of a name, or -1.
pub open spec fn last_dot(name: Seq<char>) -> int
    decreases name.len(),
{
    if name.len() == 0 {
        -1
    } else if name.last() == '.' {
        name.len() - 1
    } else {
        last_dot(name.drop_last())
    }
}

proof fn lemma_last_dot(name: Seq<char>)
    ensures
        -1 <= last_dot(name) < name.len(),
        last_dot(name) >= 0 ==> name[last_dot(name)] == '.',
        forall|j: int| last_dot(name) < j < name.len() ==> name[j] != '.',
    decreases name.len(),
{
    if name.len() > 0 && name.last() != '.' {
        lemma_last_dot(name.drop_last());
        assert forall|j: int| last_dot(name) < j < name.len() implies name[j] != '.' by {
            if j < name.len() - 1 {
                assert(name[j] == name.drop_last()[j]);
            }
        }
    }
}

/// The extension of a file name: what follows its last `.`, when that dot
/// is not the name's first character.
pub open spec fn name_extension(name: Seq<char>) -> Option<Seq<char>> {
    let k = last_dot(name);
    if k <= 0 {
        None
    } else {
        Some(name.skip(k + 1))
    }
}

/// The stem of a file name: what precedes its last `.`, or the whole name
/// when the dot is missing or first.
pub open spec fn name_stem(name: Seq<char>) -> Seq<char> {
    let k = last_dot(name);
    if k <= 0 {
        name
    } else {
        name.take(k)
    }
}

/// `Path::extension`.
pub open spec fn extension(path: Seq<char>) -> Option<Seq<char>> {
    match file_name(path) {
        Some(n) => name_extension(n),
        None => None,
    }
}

/// `Path::file_stem`.
pub open spec fn file_stem(path: Seq<char>) -> Option<Seq<char>> {
    match file_name(path) {
        Some(n) => Some(name_stem(n)),
        None => None,
    }
}

/// A relative path whose components are all names: it does not start with
/// `/`, its first piece is not `.`, and no piece is `..`.
pub open spec fn plain_relative(path: Seq<char>) -> bool {
    let pieces = split_on(path, '/');
    &&& !(path.len() > 0 && path[0] == '/')
    &&& !is_dot(pieces[0])
    &&& forall|i: int| 0 <= i < pieces.len() ==> !is_dotdot(#[trigger] pieces[i])
}

/// `root.join(relative)` for a relative path: the two joined by one `/`
/// (none when `root` is empty or already ends with `/`).
pub open spec fn join(root: Seq<char>, relative: Seq<char>) -> Seq<char> {
    if root.len() == 0 || root.last() == '/' {
        root + relative
    } else {
        root + seq!['/'] + relative
    }
}

proof fn lemma_split_nonempty(s: Seq<char>, c: char)
    ensures
        split_on(s, c).len() >= 1,
    decreases s.len(),
{
    reveal_with_fuel(split_on, 1);
}

/// The last component of the pieces (see [`last_component`]), exec side.
fn last_component_exec(pieces: &Vec<Vec<char>>) -> (r: Option<Vec<char>>)
    ensures
        match r {
            Some(p) => last_component(pieces@.map_values(|v: Vec<char>| v@)) == Some(p@),
            None => last_component(pieces@.map_values(|v: Vec<char>| v@)) is None,
        },
{
    let ghost pv = pieces@.map_values(|v: Vec<char>| v@);
    let mut k: usize = pieces.len();
    assert(pv.take(pieces@.len() as int) =~= pv);
    while k > 0
        invariant
            0 <= k <= pieces@.len(),
            pv == pieces@.map_values(|v: Vec<char>| v@),
            last_component(pv) == last_component(pv.take(k as int)),
        decreases k,
    {
        let p = &pieces[k - 1];
        assert(pv.take(k as int).last() == p@);
        assert(pv.take(k as int).drop_last() == pv.take(k - 1));
        let dot = p.len() == 1 && p[0] == '.';
        assert(dot == is_dot(p@)) by {
            if p@.len() == 1 && p@[0] == '.' {
                assert(p@ =~= seq!['.']);
            }
        }
        if p.len() == 0 || dot {
            k = k - 1;
        } else {
            let mut copy: Vec<char> = Vec::new();
            copy.extend_from_slice(p.as_slice());
            assert(copy@ == p@);
            return Some(copy);
        }
    }
    assert(pv.take(0) == Seq::<Seq<char>>::empty());
    None
}

fn is_dotdot_exec(p: &Vec<char>) -> (r: bool)
    ensures
        r == is_dotdot(p@),
{
    let r = p.len() == 2 && p[0] == '.' && p[1] == '.';
    proof {
        if p@.len() == 2 && p@[0] == '.' && p@[1] == '.' {
            assert(p@ =~= seq!['.', '.']);
        }
    }
    r
}

/// `Path::file_name` of a path text.
pub fn file_name_exec(path: &str) -> (r: Option<String>)
    ensures
        match r {
            Some(n) => file_name(path@) == Some(n@),
            None => file_name(path@) is None,
        },
{
    let chars = chars_of(path);
    let unified = replace_char_exec(chars.as_slice(), '\\', '/');
    let pieces = split_chars(unified.as_slice(), '/');
    assert(pieces@.map_values(|v: Vec<char>| v@) =~= split_on(replace_char(path@, '\\', '/'), '/'));
    match last_component_exec(&pieces) {
        Some(p) => {
            if is_dotdot_exec(&p) {
                None
            } else {
                Some(string_of(p.as_slice()))
            }
        },
        None => None,
    }
}

/// The index of the last `.` of a name, if it has one.
pub fn last_dot_exec(name: &[char]) -> (r: Option<usize>)
    ensures
        match r {
            Some(k) => last_dot(name@) == k && k < name@.len(),
            None => last_dot(name@) == -1,
        },
{
    let mut k: usize = name.len();
    assert(name@.take(name@.len() as int) =~= name@);
    while k > 0
        invariant
            0 <= k <= name@.len(),
            last_dot(name@) == last_dot(name@.take(k as int)),
        decreases k,
    {
        assert(name@.take(k as int).drop_last() == name@.take(k - 1));
        assert(name@.take(k as int).last() == name@[k - 1]);
        if name[k - 1] == '.' {
            return Some(k - 1);
        }
        k = k - 1;
    }
    assert(name@.take(0) == Seq::<char>::empty());
    None
}

/// `Path::extension` of a path text.
pub fn extension_exec(path: &str) -> (r: Option<String>)
    ensures
        match r {
            Some(e) => extension(path@) == Some(e@),
            None => extension(path@) is None,
        },
{
    match file_name_exec(path) {
        Some(n) => {
            let chars = chars_of(n.as_str());
            proof {
                lemma_last_dot(chars@);
            }
            let found = last_dot_exec(chars.as_slice());
            match found {
                Some(k) => {
                    let n = chars.len();
                    if k > 0 && k < n {
                        Some(string_of_range(chars.as_slice(), k + 1, n))
                    } else {
                        None
                    }
                },
                None => None,
            }
        },
        None => None,
    }
}

/// `Path::file_stem` of a path text.
pub fn file_stem_exec(path: &str) -> (r: Option<String>)
    ensures
        match r {
            Some(e) => file_stem(path@) == Some(e@),
            None => file_stem(path@) is None,
        },
{
    match file_name_exec(path) {
        Some(n) => {
            let chars = chars_of(n.as_str());
            proof {
                lemma_last_dot(chars@);
            }
            let found = last_dot_exec(chars.as_slice());
            match found {
                Some(k) => {
                    if k > 0 {
                        Some(string_of_range(chars.as_slice(), 0, k))
                    } else {
                        Some(n)
                    }
                },
                None => Some(n),
            }
        },
        None => None,
    }
}

/// Whether a path text is relative with only name components (see
/// [`plain_relative`]).
pub fn is_plain_relative(path: &str) -> (r: bool)
    ensures
        r == plain_relative(path@),
{
    let chars = chars_of(path);
    let pieces = split_chars(chars.as_slice(), '/');
    proof {
        lemma_split_nonempty(path@, '/');
    }
    if chars.len() > 0 && chars[0] == '/' {
        return false;
    }
    let first = &pieces[0];
    if first.len() == 1 && first[0] == '.' {
        assert(first@ =~= seq!['.']);
        return false;
    }
    assert(!is_dot(split_on(path@, '/')[0])) by {
        if is_dot(first@) {
            assert(first@.len() == 1 && first@[0] == '.');
        }
    }
    let mut i: usize = 0;
    while i < pieces.len()
        invariant
            0 <= i <= pieces@.len(),
            pieces@.len() == split_on(path@, '/').len(),
            forall|j: int| 0 <= j < pieces@.len() ==> #[trigger] pieces@[j]@ == split_on(path@, '/')[j],
            forall|j: int| 0 <= j < i ==> !is_dotdot(#[trigger] split_on(path@, '/')[j]),
        decreases pieces.len() - i,
    {
        assert(pieces@[i as int]@ == split_on(path@, '/')[i as int]);
        if is_dotdot_exec(&pieces[i]) {
            return false;
        }
        i = i + 1;
    }
    true
}

/// `Path::new(root).join(relative)` for a relative path, as text.
pub fn join_exec(root: &str, relative: &str) -> (r: String)
    ensures
        r@ == join(root@, relative@),
{
    let chars = chars_of(root);
    let mut out = root.to_string();
    if chars.len() > 0 && chars[chars.len() - 1] != '/' {
        push_char(&mut out, '/');
    }
    out.append(relative);
    out
}

/// The pieces that are components: not empty and not `.`.
pub open spec fn kept_pieces(pieces: Seq<Seq<char>>) -> Seq<Seq<char>>
    decreases pieces.len(),
{
    if pieces.len() == 0 {
        Seq::empty()
    } else {
        let p = kept_pieces(pieces.drop_last());
        let q = pieces.last();
        if q.len() == 0 || is_dot(q) {
            p
        } else {
            p.push(q)
        }
    }
}

/// `Path::components` of a path text, each as its text: `/` for the root,
/// `.` for a leading current-directory component, then the names and `..`.
pub open spec fn components(path: Seq<char>) -> Seq<Seq<char>> {
    let pieces = split_on(path, '/');
    (if path.len() > 0 && path[0] == '/' {
        seq![seq!['/']]
    } else if is_dot(pieces[0]) {
        seq![seq!['.']]
    } else {
        Seq::empty()
    }) + kept_pieces(pieces)
}

/// `Path::starts_with`: the components of `base` begin those of `path`.
pub open spec fn path_starts_with(path: Seq<char>, base: Seq<char>) -> bool {
    let a = components(path);
    let b = components(base);
    b.len() <= a.len() && a.take(b.len() as int) == b
}

/// Path equality, which compares components.
pub open spec fn path_eq(a: Seq<char>, b: Seq<char>) -> bool {
    components(a) == components(b)
}

/// The components of a path text (see [`components`]).
pub fn components_exec(path: &str) -> (r: Vec<Vec<char>>)
    ensures
        r@.map_values(|v: Vec<char>| v@) == components(path@),
{
    let chars = chars_of(path);
    let pieces = split_chars(chars.as_slice(), '/');
    proof {
        lemma_split_nonempty(path@, '/');
    }
    let ghost pv = pieces@.map_values(|v: Vec<char>| v@);
    assert(pv =~= split_on(path@, '/'));
    let mut out: Vec<Vec<char>> = Vec::new();
    if chars.len() > 0 && chars[0] == '/' {
        let mut root: Vec<char> = Vec::new();
        root.push('/');
        out.push(root);
    } else if pieces[0].len() == 1 && pieces[0][0] == '.' {
        let mut dot: Vec<char> = Vec::new();
        dot.push('.');
        out.push(dot);
        assert(pieces@[0]@ =~= seq!['.']);
    } else {
        assert(!is_dot(pv[0])) by {
            if is_dot(pv[0]) {
                assert(pieces@[0]@.len() == 1 && pieces@[0]@[0] == '.');
            }
        }
    }
    let ghost head = out@.map_values(|v: Vec<char>| v@);
    assert(head =~= (if path@.len() > 0 && path@[0] == '/' {
        seq![seq!['/']]
    } else if is_dot(pv[0]) {
        seq![seq!['.']]
    } else {
        Seq::<Seq<char>>::empty()
    }));
    let mut i: usize = 0;
    while i < pieces.len()
        invariant
            0 <= i <= pieces@.len(),
            pv == pieces@.map_values(|v: Vec<char>| v@),
            out@.map_values(|v: Vec<char>| v@) == head + kept_pieces(pv.take(i as int)),
        decreases pieces.len() - i,
    {
        assert(pv.take(i + 1).drop_last() == pv.take(i as int));
        assert(pv.take(i + 1).last() == pieces@[i as int]@);
        let q = &pieces[i];
        let dot = q.len() == 1 && q[0] == '.';
        assert(dot == is_dot(q@)) by {
            if q@.len() == 1 && q@[0] == '.' {
                assert(q@ =~= seq!['.']);
            }
        }
        if q.len() > 0 && !dot {
            let ghost before = out@.map_values(|v: Vec<char>| v@);
            let mut copy: Vec<char> = Vec::new();
            copy.extend_from_slice(q.as_slice());
            assert(copy@ == q@);
            out.push(copy);
            assert(out@.map_values(|v: Vec<char>| v@) =~= before.push(q@));
        }
        i = i + 1;
    }
    assert(pv.take(pieces@.len() as int) == pv);
    out
}

fn vec_chars_eq(a: &Vec<char>, b: &Vec<char>) -> (r: bool)
    ensures
        r == (a@ == b@),
{
    crate::text::chars_eq(a.as_slice(), b.as_slice())
}

/// Whether the first list of components begins the second.
fn components_prefix(base: &Vec<Vec<char>>, path: &Vec<Vec<char>>) -> (r: bool)
    ensures
        ({
            let b = base@.map_values(|v: Vec<char>| v@);
            let a = path@.map_values(|v: Vec<char>| v@);
            r == (b.len() <= a.len() && a.take(b.len() as int) == b)
        }),
{
    let ghost b = base@.map_values(|v: Vec<char>| v@);
    let ghost a = path@.map_values(|v: Vec<char>| v@);
    if base.len() > path.len() {
        return false;
    }
    let mut i: usize = 0;
    while i < base.len()
        invariant
            0 <= i <= base@.len() <= path@.len(),
            b == base@.map_values(|v: Vec<char>| v@),
            a == path@.map_values(|v: Vec<char>| v@),
            forall|j: int| 0 <= j < i ==> #[trigger] a[j] == b[j],
        decreases base.len() - i,
    {
        if !vec_chars_eq(&base[i], &path[i]) {
            assert(a.take(b.len() as int)[i as int] != b[i as int]);
            return false;
        }
        i = i + 1;
    }
    assert(a.take(b.len() as int) =~= b);
    true
}

/// Whether `path` starts with `base` component by component.
pub fn path_starts_with_exec(path: &str, base: &str) -> (r: bool)
    ensures
        r == path_starts_with(path@, base@),
{
    let a = components_exec(path);
    let b = components_exec(base);
    components_prefix(&b, &a)
}

/// Whether two path texts name the same path, component by component.
pub fn path_eq_exec(x: &str, y: &str) -> (r: bool)
    ensures
        r == path_eq(x@, y@),
{
    let a = components_exec(x);
    let b = components_exec(y);
    let ghost av = a@.map_values(|v: Vec<char>| v@);
    let ghost bv = b@.map_values(|v: Vec<char>| v@);
    if a.len() != b.len() {
        return false;
    }
    let r = components_prefix(&a, &b);
    proof {
        if r {
            assert(bv.take(av.len() as int) =~= bv);
        } else if av == bv {
            assert(bv.take(av.len() as int) =~= av);
        }
    }
    r
}

proof fn lemma_first_index_concat(a: Seq<char>, x: Seq<char>, c: char)
    ensures
        crate::text::first_index_of(a + x, c) == (if crate::text::first_index_of(a, c) < a.len() {
            crate::text::first_index_of(a, c)
        } else {
            a.len() + crate::text::first_index_of(x, c)
        }),
    decreases a.len(),
{
    if a.len() == 0 {
        assert(a + x =~= x);
    } else {
        assert((a + x)[0] == a[0]);
        if a[0] != c {
            assert((a + x).drop_first() =~= a.drop_first() + x);
            lemma_first_index_concat(a.drop_first(), x, c);
        }
    }
}

proof fn lemma_split_concat(a: Seq<char>, b: Seq<char>)
    ensures
        split_on(a + seq!['/'] + b, '/') == split_on(a, '/') + split_on(b, '/'),
    decreases a.len(),
{
    let s = a + seq!['/'] + b;
    crate::text::lemma_first_index_of(a, '/');
    lemma_first_index_concat(a, seq!['/'] + b, '/');
    assert(a + seq!['/'] + b =~= a + (seq!['/'] + b));
    let k = crate::text::first_index_of(a, '/');
    if k < a.len() {
        assert(crate::text::first_index_of(s, '/') == k);
        assert(s.take(k) =~= a.take(k));
        assert(s.skip(k + 1) =~= a.skip(k + 1) + seq!['/'] + b);
        lemma_split_concat(a.skip(k + 1), b);
        assert(split_on(s, '/') =~= seq![a.take(k)] + split_on(a.skip(k + 1) + seq!['/'] + b, '/'));
        assert(split_on(a, '/') =~= seq![a.take(k)] + split_on(a.skip(k + 1), '/'));
        assert(split_on(s, '/') =~= split_on(a, '/') + split_on(b, '/'));
    } else {
        assert(crate::text::first_index_of(seq!['/'] + b, '/') == 0);
        assert(crate::text::first_index_of(s, '/') == a.len());
        assert(s.take(a.len() as int) =~= a);
        assert(s.skip(a.len() as int + 1) =~= b);
        assert(split_on(a, '/') == seq![a]);
        assert(split_on(s, '/') =~= split_on(a, '/') + split_on(b, '/'));
    }
}

proof fn lemma_kept_concat(x: Seq<Seq<char>>, y: Seq<Seq<char>>)
    ensures
        kept_pieces(x + y) == kept_pieces(x) + kept_pieces(y),
    decreases y.len(),
{
    if y.len() == 0 {
        assert(x + y =~= x);
        assert(kept_pieces(x) + kept_pieces(y) =~= kept_pieces(x));
    } else {
        assert((x + y).drop_last() =~= x + y.drop_last());
        assert((x + y).last() == y.last());
        lemma_kept_concat(x, y.drop_last());
        if !(y.last().len() == 0 || is_dot(y.last())) {
            assert(kept_pieces(x) + kept_pieces(y.drop_last()).push(y.last()) =~= (kept_pieces(x)
                + kept_pieces(y.drop_last())).push(y.last()));
        }
    }
}

proof fn lemma_kept_names(pieces: Seq<Seq<char>>)
    requires
        forall|i: int| 0 <= i < pieces.len() ==> !is_dotdot(#[trigger] pieces[i]),
    ensures
        forall|i: int| 0 <= i < kept_pieces(pieces).len() ==> {
            let c = #[trigger] kept_pieces(pieces)[i];
            c.len() > 0 && !is_dot(c) && !is_dotdot(c)
        },
    decreases pieces.len(),
{
    if pieces.len() > 0 {
        assert forall|i: int| 0 <= i < pieces.drop_last().len() implies !is_dotdot(
            #[trigger] pieces.drop_last()[i],
        ) by {
            assert(pieces.drop_last()[i] == pieces[i]);
        }
        lemma_kept_names(pieces.drop_last());
        assert(!is_dotdot(pieces[pieces.len() - 1]));
        let p = kept_pieces(pieces.drop_last());
        let q = pieces.last();
        if !(q.len() == 0 || is_dot(q)) {
            assert forall|i: int| 0 <= i < p.push(q).len() implies {
                let c = #[trigger] p.push(q)[i];
                c.len() > 0 && !is_dot(c) && !is_dotdot(c)
            } by {
                if i < p.len() {
                    assert(p.push(q)[i] == p[i]);
                }
            }
        }
    }
}

/// A relative path with only name components, joined to a root, stays
/// inside the root: the joined path's components are the root's followed by
/// names only (no `.` and no `..`).
pub proof fn join_stays_inside(root: Seq<char>, relative: Seq<char>)
    requires
        root.len() > 0,
        plain_relative(relative),
    ensures
        components(join(root, relative)) == components(root) + kept_pieces(split_on(relative, '/')),
        path_starts_with(join(root, relative), root),
        forall|i: int| components(root).len() <= i < components(join(root, relative)).len() ==> {
            let c = #[trigger] components(join(root, relative))[i];
            c.len() > 0 && !is_dot(c) && !is_dotdot(c)
        },
{
    let j = join(root, relative);
    let rs = split_on(relative, '/');
    lemma_split_nonempty(root, '/');
    if root.last() == '/' {
        let r = root.drop_last();
        assert(root =~= r + seq!['/'] + Seq::<char>::empty());
        assert(j =~= r + seq!['/'] + relative);
        lemma_split_concat(r, Seq::empty());
        lemma_split_concat(r, relative);
        assert(split_on(Seq::<char>::empty(), '/') == seq![Seq::<char>::empty()]);
        lemma_kept_concat(split_on(r, '/'), seq![Seq::<char>::empty()]);
        lemma_kept_concat(split_on(r, '/'), rs);
        assert(kept_pieces(seq![Seq::<char>::empty()]) =~= Seq::<Seq<char>>::empty()) by {
            reveal_with_fuel(kept_pieces, 2);
            assert(seq![Seq::<char>::empty()].drop_last() =~= Seq::<Seq<char>>::empty());
        }
        lemma_split_nonempty(r, '/');
        assert(split_on(root, '/')[0] == split_on(j, '/')[0]);
        assert(kept_pieces(split_on(root, '/')) =~= kept_pieces(split_on(r, '/')));
        assert(root[0] == j[0]);
    } else {
        assert(j =~= root + seq!['/'] + relative);
        lemma_split_concat(root, relative);
        lemma_kept_concat(split_on(root, '/'), rs);
        assert(split_on(root, '/')[0] == split_on(j, '/')[0]);
        assert(root[0] == j[0]);
    }
    let cr = components(root);
    let cj = components(j);
    assert(cj =~= cr + kept_pieces(rs));
    assert(cj.take(cr.len() as int) =~= cr);
    lemma_kept_names(rs);
    assert forall|i: int| cr.len() <= i < cj.len() implies {
        let c = #[trigger] cj[i];
        c.len() > 0 && !is_dot(c) && !is_dotdot(c)
    } by {
        assert(cj[i] == kept_pieces(rs)[i - cr.len()]);
    }
}

} // verus!
