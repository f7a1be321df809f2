//! File paths as texts: absolute paths are compared by their steps.

use vstd::prelude::*;
use crate::text::{chars_of, same, text_of, views_of};

verus! {

/// The parts of a text between the occurrences of a character.
pub open spec fn split(s: Seq<char>, c: char) -> Seq<Seq<char>>
    decreases s.len(),
{
    if s.len() == 0 {
        seq![Seq::empty()]
    } else {
        let before = split(s.drop_last(), c);
        if s.last() == c {
            before.push(Seq::empty())
        } else {
            before.drop_last().push(before.last().push(s.last()))
        }
    }
}

pub fn split_text(s: &str, c: char) -> (r: Vec<String>)
    ensures
        views_of(r@) == split(s@, c),
        r@.len() > 0,
{
    let chars = chars_of(s);
    let mut out: Vec<String> = Vec::new();
    let mut current = String::new();
    let mut i: usize = 0;
    proof {
        assert(s@.take(0) == Seq::<char>::empty());
        assert(views_of(out@).push(current@) =~= split(s@.take(0), c));
    }
    while i < chars.len()
        invariant
            i <= chars.len(),
            chars@ == s@,
            views_of(out@).push(current@) == split(s@.take(i as int), c),
        decreases chars.len() - i,
    {
        let ghost before = split(s@.take(i as int), c);
        let ghost done = views_of(out@);
        proof {
            assert(s@.take(i + 1).drop_last() == s@.take(i as int));
            assert(s@.take(i + 1).last() == s@[i as int]);
            assert(before.last() == current@);
            assert(before.drop_last() == done);
        }
        if chars[i] == c {
            out.push(current);
            current = String::new();
            assert(views_of(out@) =~= before);
        } else {
            current.push(chars[i]);
        }
        i += 1;
    }
    let ghost done = views_of(out@);
    out.push(current);
    proof {
        assert(views_of(out@) =~= done.push(current@));
        assert(s@.take(i as int) == s@);
    }
    out
}

/// Whether a path starts at the root.
pub open spec fn is_absolute(path: Seq<char>) -> bool {
    path.len() > 0 && path[0] == '/'
}

pub fn absolute(path: &str) -> (r: bool)
    ensures
        r == is_absolute(path@),
{
    let chars = chars_of(path);
    chars.len() > 0 && chars[0] == '/'
}

pub open spec fn is_step_name(part: Seq<char>) -> bool {
    part.len() > 0 && part != "."@
}

/// The steps of an absolute path: repeated separators and steps to where one is do not count.
pub open spec fn path_steps(path: Seq<char>) -> Seq<Seq<char>> {
    split(path, '/').filter(|part: Seq<char>| is_step_name(part))
}

pub fn steps_of(path: &str) -> (r: Vec<String>)
    ensures
        views_of(r@) == path_steps(path@),
{
    let parts = split_text(path, '/');
    let ghost all = views_of(parts@);
    let ghost keep = |part: Seq<char>| is_step_name(part);
    let mut out: Vec<String> = Vec::new();
    let mut i: usize = 0;
    proof {
        reveal(Seq::filter);
        assert(all.take(0).filter(keep) =~= Seq::<Seq<char>>::empty());
        assert(views_of(out@) =~= Seq::<Seq<char>>::empty());
    }
    while i < parts.len()
        invariant
            i <= parts.len(),
            all == views_of(parts@),
            keep == (|part: Seq<char>| is_step_name(part)),
            views_of(out@) == all.take(i as int).filter(keep),
        decreases parts.len() - i,
    {
        let part = &parts[i];
        proof {
            reveal(Seq::filter);
            assert(all.take(i + 1).drop_last() == all.take(i as int));
            assert(all.take(i + 1).last() == part@);
        }
        if !same(part.as_str(), "") && !same(part.as_str(), ".") {
            proof {
                reveal_strlit("");
                assert(part@.len() > 0) by {
                    if part@.len() == 0 {
                        assert(part@ =~= ""@);
                    }
                }
                assert(keep(part@));
            }
            let ghost before = views_of(out@);
            out.push(part.clone());
            assert(views_of(out@) =~= before.push(part@));
        } else {
            proof {
                reveal_strlit("");
                assert(!keep(part@));
            }
        }
        i += 1;
    }
    assert(all.take(i as int) == all);
    out
}

pub fn same_texts(a: &Vec<String>, b: &Vec<String>) -> (r: bool)
    ensures
        r == (views_of(a@) == views_of(b@)),
{
    if a.len() != b.len() {
        assert(views_of(a@).len() != views_of(b@).len());
        return false;
    }
    let mut i: usize = 0;
    while i < a.len()
        invariant
            i <= a.len() == b.len(),
            forall|j: int| 0 <= j < i ==> #[trigger] views_of(a@)[j] == views_of(b@)[j],
        decreases a.len() - i,
    {
        if !same(a[i].as_str(), b[i].as_str()) {
            assert(views_of(a@)[i as int] != views_of(b@)[i as int]);
            return false;
        }
        i += 1;
    }
    assert(views_of(a@) =~= views_of(b@));
    true
}

/// Whether a path lies directly in a directory. Both are absolute.
pub open spec fn lies_in(path: Seq<char>, directory: Seq<char>) -> bool {
    &&& is_absolute(path)
    &&& is_absolute(directory)
    &&& path_steps(path).len() > 0
    &&& path_steps(path).drop_last() == path_steps(directory)
}

pub fn directly_in(path: &str, directory: &str) -> (r: bool)
    ensures
        r == lies_in(path@, directory@),
{
    if !absolute(path) || !absolute(directory) {
        return false;
    }
    let mut steps = steps_of(path);
    let ghost all = views_of(steps@);
    if steps.pop().is_none() {
        return false;
    }
    assert(views_of(steps@) =~= all.drop_last());
    same_texts(&steps, &steps_of(directory))
}

/// Whether a path starts with a step to where one is.
pub open spec fn starts_here(path: Seq<char>) -> bool {
    path.len() > 0 && path[0] == '.' && (path.len() == 1 || path[1] == '/')
}

/// Whether two paths are the same one: both from the root or not, both with a first step to where
/// one is or not, and by the same steps.
pub open spec fn same_path(a: Seq<char>, b: Seq<char>) -> bool {
    &&& is_absolute(a) == is_absolute(b)
    &&& starts_here(a) == starts_here(b)
    &&& path_steps(a) == path_steps(b)
}

fn begins_here(path: &str) -> (r: bool)
    ensures
        r == starts_here(path@),
{
    let chars = chars_of(path);
    chars.len() > 0 && chars[0] == '.' && (chars.len() == 1 || chars[1] == '/')
}

pub fn is_same_path(a: &str, b: &str) -> (r: bool)
    ensures
        r == same_path(a@, b@),
{
    absolute(a) == absolute(b) && begins_here(a) == begins_here(b) && same_texts(
        &steps_of(a),
        &steps_of(b),
    )
}

/// The name of the file or directory that a path leads to, where its last step is one.
pub open spec fn name_of(path: Seq<char>) -> Option<Seq<char>> {
    let steps = path_steps(path);
    if steps.len() == 0 || steps.last() == ".."@ {
        None
    } else {
        Some(steps.last())
    }
}

pub fn has_name(path: &str, name: &str) -> (r: bool)
    ensures
        r == (name_of(path@) == Some(name@)),
{
    let mut steps = steps_of(path);
    let ghost all = views_of(steps@);
    match steps.pop() {
        Some(last) => {
            assert(all.last() == last@);
            !same(last.as_str(), "..") && same(last.as_str(), name)
        },
        None => false,
    }
}

/// Where the steps of a path begin: behind the root, or behind a first step to where one is.
pub open spec fn body_start(path: Seq<char>) -> nat {
    if is_absolute(path) || starts_here(path) {
        1
    } else {
        0
    }
}

/// Where the last part of a path begins.
pub open spec fn part_start(path: Seq<char>, start: nat) -> nat
    decreases path.len(),
{
    if path.len() <= start {
        start
    } else if path.last() == '/' {
        path.len()
    } else {
        part_start(path.drop_last(), start)
    }
}

/// A path without its last part and the separator before it.
pub open spec fn without_part(path: Seq<char>, start: nat) -> Seq<char> {
    let at = part_start(path, start) as int;
    if at > start {
        path.take(at - 1)
    } else {
        path.take(at)
    }
}

/// A path without the separators and the steps to where one is at its end.
pub open spec fn settled(path: Seq<char>, start: nat) -> Seq<char>
    decreases path.len(),
{
    if path.len() <= start || is_step_name(path.skip(part_start(path, start) as int)) {
        path
    } else if without_part(path, start).len() < path.len() {
        settled(without_part(path, start), start)
    } else {
        path
    }
}

/// The directory that a path lies in: the path without its last step. The root and the empty path
/// lie in none.
pub open spec fn parent_of(path: Seq<char>) -> Option<Seq<char>> {
    let start = body_start(path);
    let whole = settled(path, start);
    if whole.len() > start {
        Some(settled(without_part(whole, start), start))
    } else if starts_here(path) {
        Some(Seq::empty())
    } else {
        None
    }
}

fn last_part(chars: &Vec<char>, start: usize, end: usize) -> (r: usize)
    requires
        start <= end <= chars.len(),
    ensures
        r == part_start(chars@.take(end as int), start as nat),
        start <= r <= end,
{
    let mut k: usize = end;
    while k > start
        invariant
            start <= k <= end <= chars.len(),
            part_start(chars@.take(end as int), start as nat) == part_start(
                chars@.take(k as int),
                start as nat,
            ),
        decreases k,
    {
        proof {
            assert(chars@.take(k as int).last() == chars@[k - 1]);
            assert(chars@.take(k as int).drop_last() == chars@.take(k - 1));
        }
        if chars[k - 1] == '/' {
            return k;
        }
        k -= 1;
    }
    k
}

/// How much of a path is left without its last part.
fn cut_part(chars: &Vec<char>, start: usize, end: usize) -> (r: usize)
    requires
        start < end <= chars.len(),
    ensures
        chars@.take(r as int) == without_part(chars@.take(end as int), start as nat),
        start <= r < end,
{
    let at = last_part(chars, start, end);
    let r: usize = if at > start {
        at - 1
    } else {
        at
    };
    assert(chars@.take(end as int).take(r as int) =~= chars@.take(r as int));
    r
}

/// How much of a path is left without what does not count at its end.
fn settle(chars: &Vec<char>, start: usize, end: usize) -> (r: usize)
    requires
        start <= end <= chars.len(),
    ensures
        chars@.take(r as int) == settled(chars@.take(end as int), start as nat),
        start <= r <= end,
{
    let mut k: usize = end;
    while k > start
        invariant
            start <= k <= end <= chars.len(),
            settled(chars@.take(end as int), start as nat) == settled(
                chars@.take(k as int),
                start as nat,
            ),
        decreases k,
    {
        let at = last_part(chars, start, k);
        proof {
            let part = chars@.take(k as int).skip(at as int);
            assert(part.len() == k - at);
            reveal_strlit(".");
            assert(part == "."@ <==> (k - at == 1 && chars@[at as int] == '.')) by {
                if k - at == 1 && chars@[at as int] == '.' {
                    assert(part =~= "."@);
                }
                if part == "."@ {
                    assert(part[0] == chars@[at as int]);
                }
            }
        }
        if at < k && !(k - at == 1 && chars[at] == '.') {
            return k;
        }
        k = cut_part(chars, start, k);
    }
    k
}

pub fn parent_path(path: &str) -> (r: Option<String>)
    ensures
        (match r {
            Some(parent) => Some(parent@),
            None => None,
        }) == parent_of(path@),
{
    let chars = chars_of(path);
    let here = begins_here(path);
    let start: usize = if absolute(path) || here {
        1
    } else {
        0
    };
    assert(chars@.take(chars.len() as int) == path@);
    let whole = settle(&chars, start, chars.len());
    if whole > start {
        let cut = cut_part(&chars, start, whole);
        let end = settle(&chars, start, cut);
        let head = vstd::slice::slice_subrange(chars.as_slice(), 0, end);
        assert(head@ == chars@.take(end as int));
        Some(text_of(head))
    } else if here {
        let empty = String::new();
        assert(empty@ =~= Seq::<char>::empty());
        Some(empty)
    } else {
        None
    }
}

/// Where a last part begins, nothing behind separates.
proof fn lemma_part_start(path: Seq<char>, start: nat)
    requires
        start <= path.len(),
    ensures
        start <= part_start(path, start) <= path.len(),
        forall|i: int| part_start(path, start) <= i < path.len() ==> #[trigger] path[i] != '/',
        part_start(path, start) > start ==> path[part_start(path, start) - 1] == '/',
    decreases path.len(),
{
    if path.len() > start && path.last() != '/' {
        let init = path.drop_last();
        lemma_part_start(init, start);
        let at = part_start(path, start);
        assert forall|i: int| at <= i < path.len() implies #[trigger] path[i] != '/' by {
            if i < init.len() {
                assert(path[i] == init[i]);
            }
        }
    }
}

/// A text behind a separator is a part of its own.
proof fn lemma_split_part(head: Seq<char>, part: Seq<char>)
    requires
        !part.contains('/'),
    ensures
        split(head.push('/') + part, '/') == split(head, '/').push(part),
        split(head, '/').len() > 0,
    decreases part.len(),
{
    let whole = head.push('/') + part;
    lemma_split_len(head);
    if part.len() == 0 {
        assert(whole =~= head.push('/'));
        assert(whole.drop_last() =~= head);
        assert(part =~= Seq::<char>::empty());
    } else {
        let init = part.drop_last();
        assert(!init.contains('/')) by {
            if init.contains('/') {
                let i = choose|i: int| 0 <= i < init.len() && init[i] == '/';
                assert(part[i] == '/');
            }
        }
        lemma_split_part(head, init);
        assert(part[part.len() - 1] != '/');
        assert(whole.last() == part.last());
        assert(whole.drop_last() =~= head.push('/') + init);
        let before = split(head, '/').push(init);
        assert(before.drop_last() =~= split(head, '/'));
        assert(init.push(part.last()) =~= part);
    }
}

proof fn lemma_split_len(path: Seq<char>)
    ensures
        split(path, '/').len() > 0,
    decreases path.len(),
{
    if path.len() > 0 {
        lemma_split_len(path.drop_last());
    }
}

/// The steps of a path are those without its last part, and that part where it counts.
proof fn lemma_steps_without_part(path: Seq<char>)
    requires
        is_absolute(path),
        path.len() > 1,
    ensures
        ({
            let part = path.skip(part_start(path, 1) as int);
            &&& is_absolute(without_part(path, 1))
            &&& without_part(path, 1).len() < path.len()
            &&& path_steps(path) == if is_step_name(part) {
                path_steps(without_part(path, 1)).push(part)
            } else {
                path_steps(without_part(path, 1))
            }
        }),
{
    lemma_part_start(path, 1);
    let at = part_start(path, 1) as int;
    let part = path.skip(at);
    let head = without_part(path, 1);
    let keep = |step: Seq<char>| is_step_name(step);
    assert(!part.contains('/')) by {
        if part.contains('/') {
            let i = choose|i: int| 0 <= i < part.len() && part[i] == '/';
            assert(path[at + i] == '/');
        }
    }
    reveal(Seq::filter);
    if at > 1 {
        assert(head.push('/') + part =~= path);
        lemma_split_part(head, part);
        let parts = split(head, '/');
        assert(parts.push(part).drop_last() =~= parts);
    } else {
        let none = Seq::<char>::empty();
        assert(none.push('/') + part =~= path);
        assert(none.push('/') + none =~= head);
        lemma_split_part(none, part);
        lemma_split_part(none, none);
        let parts = split(none, '/');
        assert(parts.push(part).drop_last() =~= parts);
        assert(parts.push(none).drop_last() =~= parts);
        assert(!keep(none));
    }
}

/// What does not count at the end of a path is no step of it.
proof fn lemma_settled_steps(path: Seq<char>)
    requires
        is_absolute(path),
    ensures
        is_absolute(settled(path, 1)),
        path_steps(settled(path, 1)) == path_steps(path),
        settled(path, 1).len() > 1 ==> is_step_name(
            settled(path, 1).skip(part_start(settled(path, 1), 1) as int),
        ),
    decreases path.len(),
{
    if path.len() > 1 {
        lemma_steps_without_part(path);
        if !is_step_name(path.skip(part_start(path, 1) as int)) {
            lemma_settled_steps(without_part(path, 1));
        }
    }
}

/// A file lies directly in its parent. Only a path without any step has none.
pub proof fn files_lie_in_their_parents(path: Seq<char>)
    requires
        is_absolute(path),
    ensures
        parent_of(path) is Some <==> path_steps(path).len() > 0,
        parent_of(path) matches Some(parent) ==> lies_in(path, parent),
{
    let whole = settled(path, 1);
    lemma_settled_steps(path);
    if whole.len() > 1 {
        lemma_steps_without_part(whole);
        let head = without_part(whole, 1);
        lemma_settled_steps(head);
        let steps = path_steps(head);
        assert(steps.push(whole.skip(part_start(whole, 1) as int)).drop_last() =~= steps);
    } else {
        let none = Seq::<char>::empty();
        assert(whole =~= none.push('/') + none);
        lemma_split_part(none, none);
        reveal(Seq::filter);
        let parts = split(none, '/');
        let keep = |step: Seq<char>| is_step_name(step);
        assert(parts.push(none).drop_last() =~= parts);
        assert(parts =~= seq![none]);
        assert(parts.drop_last() =~= Seq::<Seq<char>>::empty());
        assert(!keep(none));
        assert(Seq::<Seq<char>>::empty().filter(keep).len() == 0);
        assert(parts.filter(keep).len() == 0);
        assert(parts.push(none).filter(keep).len() == 0);
        assert(path_steps(whole).len() == 0);
    }
}

} // verus!
