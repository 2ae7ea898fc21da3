//! Unix paths as text.
use crate::text::{
    chars_of, law_join_undoes_split, same_text, split_on, split_text, text_between, texts,
};
use vstd::prelude::*;
use vstd::string::*;

verus! {

/// Whether a part of a path names something: an empty part never does, and `.`
/// only at the very front.
pub open spec fn is_real_part(parts: Seq<Seq<char>>, i: int) -> bool {
    parts[i].len() > 0 && (parts[i] != "."@ || i == 0)
}

/// The first `n` parts without those that name nothing.
pub open spec fn real_parts(parts: Seq<Seq<char>>, n: nat) -> Seq<Seq<char>>
    decreases n,
{
    if n == 0 {
        Seq::empty()
    } else if is_real_part(parts, n - 1) {
        real_parts(parts, (n - 1) as nat).push(parts[n - 1])
    } else {
        real_parts(parts, (n - 1) as nat)
    }
}

/// The components of a path.
pub open spec fn components(path: Seq<char>) -> Seq<Seq<char>> {
    let parts = split_on(path, '/');
    real_parts(parts, parts.len())
}

pub open spec fn is_absolute(path: Seq<char>) -> bool {
    path.len() > 0 && path[0] == '/'
}

/// Whether two paths have the same root and the same components.
pub open spec fn same_location(a: Seq<char>, b: Seq<char>) -> bool {
    is_absolute(a) == is_absolute(b) && components(a) == components(b)
}

/// The components of a path.
fn components_of(path: &str) -> (r: Vec<String>)
    ensures
        texts(r@) == components(path@),
{
    let parts = split_text(path, '/');
    let ghost all = split_on(path@, '/');
    let mut out: Vec<String> = Vec::new();
    let mut i: usize = 0;
    assert(texts(parts@).len() == parts.len());
    assert(texts(out@) =~= Seq::empty());
    while i < parts.len()
        invariant
            i <= parts.len(),
            all == texts(parts@),
            all.len() == parts.len(),
            texts(out@) == real_parts(all, i as nat),
        decreases parts.len() - i,
    {
        let ghost before = texts(out@);
        assert(all[i as int] == parts@[i as int]@);
        let part = parts[i].as_str();
        if !part.is_empty() && (i == 0 || !same_text(part, ".")) {
            out.push(parts[i].clone());
            assert(texts(out@) =~= before.push(all[i as int]));
        }
        i += 1;
    }
    out
}

/// Whether the two lists hold the same texts in the same order.
pub fn same_texts(a: &Vec<String>, b: &Vec<String>) -> (r: bool)
    ensures
        r == (texts(a@) == texts(b@)),
{
    assert(texts(a@).len() == a.len() && texts(b@).len() == b.len());
    if a.len() != b.len() {
        return false;
    }
    let mut i: usize = 0;
    while i < a.len()
        invariant
            i <= a.len(),
            a.len() == b.len(),
            forall|k: int| 0 <= k < i ==> a@[k]@ == b@[k]@,
        decreases a.len() - i,
    {
        if a[i] != b[i] {
            proof {
                assert(texts(a@)[i as int] != texts(b@)[i as int]);
            }
            return false;
        }
        i += 1;
    }
    assert(texts(a@) =~= texts(b@));
    true
}

/// Whether a path starts at the root.
pub fn starts_at_root(path: &str) -> (r: bool)
    ensures
        r == is_absolute(path@),
{
    let v = chars_of(path);
    v.len() > 0 && v[0] == '/'
}

/// Whether two paths have the same root and the same components.
pub fn same_path(a: &str, b: &str) -> (r: bool)
    ensures
        r == same_location(a@, b@),
{
    starts_at_root(a) == starts_at_root(b) && same_texts(&components_of(a), &components_of(b))
}

/// `path` without the separators and `.` parts at its end.
pub open spec fn without_tail(path: Seq<char>) -> Seq<char>
    decreases path.len(),
{
    if path.len() > 1 && path.last() == '/' {
        without_tail(path.drop_last())
    } else if path.len() > 1 && path.last() == '.' && path[path.len() - 2] == '/' {
        without_tail(path.drop_last())
    } else {
        path
    }
}

/// Where the last part of a text without a separator at its end starts.
pub open spec fn last_part_start(path: Seq<char>) -> nat
    decreases path.len(),
{
    if path.len() == 0 || path.last() == '/' {
        path.len()
    } else {
        last_part_start(path.drop_last())
    }
}

/// The last component of a path, if that is a name.
pub open spec fn file_name(path: Seq<char>) -> Option<Seq<char>> {
    let t = without_tail(path);
    let name = t.skip(last_part_start(t) as int);
    if name.len() == 0 || name == "."@ || name == ".."@ {
        None
    } else {
        Some(name)
    }
}

/// What stands before the last component of a path.
pub open spec fn parent(path: Seq<char>) -> Seq<char> {
    let t = without_tail(path);
    without_tail(t.take(last_part_start(t) as int))
}

/// `path` with `rest` behind it, or `rest` alone where that starts at the root.
pub open spec fn joined(path: Seq<char>, rest: Seq<char>) -> Seq<char> {
    if is_absolute(rest) {
        rest
    } else if path.len() == 0 || path.last() == '/' {
        path + rest
    } else {
        path + "/"@ + rest
    }
}

/// `path` with `name` in place of its last component, or behind it where that
/// is no name.
pub open spec fn with_file_name(path: Seq<char>, name: Seq<char>) -> Seq<char> {
    if file_name(path) is Some {
        joined(parent(path), name)
    } else {
        joined(path, name)
    }
}

/// How much of the first `n` characters is left without the tail.
fn tail_cut(v: &Vec<char>, n: usize) -> (r: usize)
    requires
        n <= v.len(),
    ensures
        r <= n,
        v@.take(r as int) == without_tail(v@.take(n as int)),
{
    let mut r: usize = n;
    while r > 1 && (v[r - 1] == '/' || (v[r - 1] == '.' && v[r - 2] == '/'))
        invariant
            r <= n <= v.len(),
            without_tail(v@.take(r as int)) == without_tail(v@.take(n as int)),
        decreases r,
    {
        proof {
            let cur = v@.take(r as int);
            assert(cur.last() == v@[r - 1]);
            assert(cur.drop_last() =~= v@.take(r - 1));
        }
        r -= 1;
    }
    proof {
        let cur = v@.take(r as int);
        if r > 1 {
            assert(cur.last() == v@[r - 1]);
            assert(cur[r - 2] == v@[r - 2]);
        }
    }
    r
}

/// Where the last part of the first `n` characters starts.
fn last_start(v: &Vec<char>, n: usize) -> (r: usize)
    requires
        n <= v.len(),
    ensures
        r <= n,
        r == last_part_start(v@.take(n as int)),
{
    let mut r: usize = n;
    while r > 0 && v[r - 1] != '/'
        invariant
            r <= n <= v.len(),
            last_part_start(v@.take(r as int)) == last_part_start(v@.take(n as int)),
        decreases r,
    {
        proof {
            let cur = v@.take(r as int);
            assert(cur.last() == v@[r - 1]);
            assert(cur.drop_last() =~= v@.take(r - 1));
        }
        r -= 1;
    }
    proof {
        let cur = v@.take(r as int);
        if r > 0 {
            assert(cur.last() == v@[r - 1]);
        }
    }
    r
}

/// The last component of a path, if that is a name.
pub fn file_name_of(path: &str) -> (r: Option<String>)
    ensures
        r is Some <==> file_name(path@) is Some,
        r matches Some(name) ==> name@ == file_name(path@)->0,
{
    let v = chars_of(path);
    assert(v@.take(v.len() as int) =~= v@);
    let end = tail_cut(&v, v.len());
    let start = last_start(&v, end);
    let name = text_between(&v, start, end);
    assert(name@ =~= v@.take(end as int).skip(start as int));
    if name.as_str().is_empty() || same_text(name.as_str(), ".") || same_text(name.as_str(), "..") {
        None
    } else {
        Some(name)
    }
}

/// `path` with `rest` behind it, or `rest` alone where that starts at the root.
pub fn join_path(path: &str, rest: &str) -> (r: String)
    ensures
        r@ == joined(path@, rest@),
{
    if starts_at_root(rest) {
        return rest.to_owned();
    }
    let v = chars_of(path);
    let mut out = path.to_owned();
    if v.len() > 0 && v[v.len() - 1] != '/' {
        out.append("/");
    }
    out.append(rest);
    out
}

/// `path` with `name` in place of its last component, or behind it where that
/// is no name.
pub fn set_file_name(path: &str, name: &str) -> (r: String)
    ensures
        r@ == with_file_name(path@, name@),
{
    if file_name_of(path).is_some() {
        let v = chars_of(path);
        assert(v@.take(v.len() as int) =~= v@);
        let end = tail_cut(&v, v.len());
        let start = last_start(&v, end);
        assert(v@.take(end as int).take(start as int) =~= v@.take(start as int));
        let cut = tail_cut(&v, start);
        let base = text_between(&v, 0, cut);
        assert(base@ =~= v@.take(cut as int));
        join_path(base.as_str(), name)
    } else {
        join_path(path, name)
    }
}

proof fn lemma_last_part(dir: Seq<char>, file: Seq<char>)
    requires
        !file.contains('/'),
        dir.len() == 0 || dir.last() == '/',
    ensures
        last_part_start(dir + file) == dir.len(),
    decreases file.len(),
{
    if file.len() == 0 {
        assert(dir + file =~= dir);
    } else {
        let t = dir + file;
        let front = file.drop_last();
        assert(file[file.len() - 1] == t.last());
        assert(!front.contains('/')) by {
            if front.contains('/') {
                let k = choose|k: int| 0 <= k < front.len() && front[k] == '/';
                assert(file[k] == '/');
            }
        }
        lemma_last_part(dir, front);
        assert(t.drop_last() =~= dir + front);
    }
}

/// A file beside another is in the same directory under its own name: in place of
/// the last part of the path stands the new name, and nothing else changes.
pub proof fn law_new_name_in_the_same_directory(dir: Seq<char>, file: Seq<char>, name: Seq<char>)
    requires
        dir.len() > 0,
        dir.last() != '/',
        !(dir.last() == '.' && dir.len() > 1 && dir[dir.len() - 2] == '/'),
        file.len() > 0,
        !file.contains('/'),
        file != seq!['.'],
        file != seq!['.', '.'],
        name.len() > 0,
        name[0] != '/',
    ensures
        with_file_name(dir.push('/') + file, name) == dir.push('/') + name,
        file_name(dir.push('/') + file) == Some(file),
        parent(dir.push('/') + file) == dir,
{
    reveal_strlit(".");
    reveal_strlit("..");
    reveal_strlit("/");
    assert("."@ =~= seq!['.']);
    assert(".."@ =~= seq!['.', '.']);
    assert("/"@ =~= seq!['/']);
    let front = dir.push('/');
    let path = front + file;
    assert(file[file.len() - 1] == path.last());
    assert(path.last() != '/');
    if path.last() == '.' && path[path.len() - 2] == '/' {
        if file.len() > 1 {
            assert(file[file.len() - 2] == '/');
        } else {
            assert(file =~= seq!['.']);
        }
    }
    assert(without_tail(path) == path);
    lemma_last_part(front, file);
    assert(path.skip(front.len() as int) =~= file);
    assert(path.take(front.len() as int) =~= front);
    assert(front.drop_last() =~= dir);
    assert(without_tail(dir) == dir);
    assert(without_tail(front) == dir);
    assert(joined(dir, name) =~= dir.push('/') + name);
}

/// A path that is joined to another stands at the end, one that starts at the
/// root alone, and any other behind the first with one separator between them.
pub proof fn law_joined_path_ends_with_the_rest(path: Seq<char>, rest: Seq<char>)
    ensures
        rest.is_suffix_of(joined(path, rest)),
        rest.len() > 0 && rest[0] == '/' ==> joined(path, rest) == rest,
        rest.len() == 0 || rest[0] != '/' ==> path.is_prefix_of(joined(path, rest)) && joined(
            path,
            rest,
        ).len() == path.len() + rest.len() + (if path.len() == 0 || path.last() == '/' {
            0int
        } else {
            1int
        }),
        rest.len() > 0 && rest[0] != '/' && path.len() > 0 ==> joined(path, rest)[joined(
            path,
            rest,
        ).len() - rest.len() - 1] == '/',
{
    reveal_strlit("/");
    let all = joined(path, rest);
    assert(rest =~= all.subrange(all.len() - rest.len(), all.len() as int));
    if !is_absolute(rest) {
        assert(path =~= all.subrange(0, path.len() as int));
    }
}

proof fn lemma_real_parts(parts: Seq<Seq<char>>, n: nat)
    requires
        n <= parts.len(),
        forall|i: int| 0 <= i < parts.len() ==> (#[trigger] parts[i]).len() > 0 && parts[i] != seq!['.'],
    ensures
        real_parts(parts, n) == parts.take(n as int),
    decreases n,
{
    reveal_strlit(".");
    assert("."@ =~= seq!['.']);
    if n == 0 {
        assert(real_parts(parts, n) =~= parts.take(0));
    } else {
        lemma_real_parts(parts, (n - 1) as nat);
        assert(parts[n - 1].len() > 0);
        assert(real_parts(parts, n) =~= parts.take(n as int));
    }
}

/// Two relative paths without empty parts and without `.` are the same location
/// only where they are the same text.
pub proof fn law_plain_paths_differ(a: Seq<char>, b: Seq<char>)
    requires
        forall|i: int|
            0 <= i < split_on(a, '/').len() ==> (#[trigger] split_on(a, '/')[i]).len() > 0 && split_on(
                a,
                '/',
            )[i] != seq!['.'],
        forall|i: int|
            0 <= i < split_on(b, '/').len() ==> (#[trigger] split_on(b, '/')[i]).len() > 0 && split_on(
                b,
                '/',
            )[i] != seq!['.'],
        same_location(a, b),
    ensures
        a == b,
{
    let x = split_on(a, '/');
    let y = split_on(b, '/');
    lemma_real_parts(x, x.len());
    lemma_real_parts(y, y.len());
    assert(x.take(x.len() as int) =~= x);
    assert(y.take(y.len() as int) =~= y);
    law_join_undoes_split(a, '/');
    law_join_undoes_split(b, '/');
}

proof fn lemma_real_parts_more(parts: Seq<Seq<char>>, more: Seq<Seq<char>>, n: nat)
    requires
        n <= parts.len(),
        parts.len() <= more.len(),
        forall|i: int| 0 <= i < parts.len() ==> #[trigger] parts[i] == more[i],
    ensures
        real_parts(parts, n) == real_parts(more, n),
    decreases n,
{
    if n > 0 {
        lemma_real_parts_more(parts, more, (n - 1) as nat);
        assert(parts[n - 1] == more[n - 1]);
    }
}

/// A separator at the end of a path, and a `.` behind it, name nothing: the
/// location is the same.
pub proof fn law_trailing_separator_names_nothing(path: Seq<char>)
    requires
        path.len() > 0,
    ensures
        same_location(path, path.push('/')),
        same_location(path, path.push('/').push('.')),
{
    reveal_strlit(".");
    assert("."@ =~= seq!['.']);
    let parts = split_on(path, '/');
    let none = Seq::<char>::empty();
    let one = path.push('/');
    assert(one.drop_last() =~= path);
    let more = split_on(one, '/');
    assert(more == parts.push(none));
    lemma_real_parts_more(parts, more, parts.len());
    assert(one[0] == path[0]);
    let two = one.push('.');
    assert(two.drop_last() =~= one);
    let most = split_on(two, '/');
    assert(most == more.drop_last().push(none.push('.')));
    assert(none.push('.') =~= seq!['.']);
    law_join_undoes_split(path, '/');
    lemma_real_parts_more(parts, most, parts.len());
    assert(two[0] == path[0]);
}

/// The components of a path are its parts between separators, without the empty
/// ones and without `.`, which counts at the very front alone.
pub proof fn law_components_are_the_named_parts(path: Seq<char>)
    ensures
        ({
            let parts = split_on(path, '/');
            let named = |p: Seq<char>| p.len() > 0 && p != seq!['.'];
            &&& parts[0] != seq!['.'] ==> components(path) == parts.filter(named)
            &&& parts[0] == seq!['.'] ==> components(path) == seq![seq!['.']] + parts.filter(named)
        }),
{
    let parts = split_on(path, '/');
    law_join_undoes_split(path, '/');
    lemma_named_parts(parts, parts.len());
    assert(parts.take(parts.len() as int) =~= parts);
}

proof fn lemma_named_parts(parts: Seq<Seq<char>>, n: nat)
    requires
        0 < n <= parts.len(),
    ensures
        ({
            let named = |p: Seq<char>| p.len() > 0 && p != seq!['.'];
            &&& parts[0] != seq!['.'] ==> real_parts(parts, n) == parts.take(n as int).filter(named)
            &&& parts[0] == seq!['.'] ==> real_parts(parts, n) == seq![seq!['.']] + parts.take(
                n as int,
            ).filter(named)
        }),
    decreases n,
{
    reveal(Seq::filter);
    reveal_strlit(".");
    assert("."@ =~= seq!['.']);
    let named = |p: Seq<char>| p.len() > 0 && p != seq!['.'];
    let part = parts.take(n as int);
    assert(part.drop_last() =~= parts.take(n - 1));
    assert(part.last() == parts[n - 1]);
    if n == 1 {
        assert(parts.take(0) =~= Seq::empty());
        assert(parts.take(0).filter(named) =~= Seq::empty());
        assert(real_parts(parts, 0) =~= Seq::empty());
        if parts[0] == seq!['.'] {
            assert(real_parts(parts, 1) =~= seq![seq!['.']] + part.filter(named));
        } else {
            assert(real_parts(parts, 1) =~= part.filter(named));
        }
    } else {
        lemma_named_parts(parts, (n - 1) as nat);
        let before = parts.take(n - 1).filter(named);
        if parts[0] == seq!['.'] && named(parts[n - 1]) {
            assert((seq![seq!['.']] + before).push(parts[n - 1]) =~= seq![seq!['.']] + before.push(
                parts[n - 1],
            ));
        }
    }
}

/// Two paths are the same location exactly where both or neither start at the
/// root, and their components are the same.
pub proof fn law_same_path_is_same_location(a: &str, b: &str, r: bool)
    requires
        call_ensures(same_path, (a, b), r),
    ensures
        r <==> components(a@) == components(b@) && ((a@.len() > 0 && a@[0] == '/') <==> (b@.len() > 0
            && b@[0] == '/')),
        a@ == b@ ==> r,
{
}

} // verus!
