//! Unix paths as text, read through their components: a root, a leading `.`
//! of a relative path, and names. Repeated and trailing separators and inner
//! `.` segments carry no meaning.
use vstd::prelude::*;
use vstd::string::*;
use crate::text::{chars_of, join_text, joined, option_text, same, slice_text, views};

verus! {

broadcast use crate::text::lemma_views_push;

/// The pieces between the separators, empty ones too.
pub open spec fn segments(p: Seq<char>) -> Seq<Seq<char>>
    decreases p.len(),
{
    if p.len() == 0 {
        seq![Seq::<char>::empty()]
    } else {
        let before = segments(p.drop_last());
        if p.last() == '/' {
            before.push(Seq::empty())
        } else {
            before.drop_last().push(before.last().push(p.last()))
        }
    }
}

/// A segment that names an entry.
pub open spec fn is_name(segment: Seq<char>) -> bool {
    segment.len() > 0 && segment != seq!['.']
}

/// The segments that name an entry.
pub open spec fn names(segs: Seq<Seq<char>>) -> Seq<Seq<char>>
    decreases segs.len(),
{
    if segs.len() == 0 {
        Seq::empty()
    } else if is_name(segs.last()) {
        names(segs.drop_last()).push(segs.last())
    } else {
        names(segs.drop_last())
    }
}

pub open spec fn is_absolute(p: Seq<char>) -> bool {
    p.len() > 0 && p[0] == '/'
}

/// A relative path that starts with the segment `.`.
pub open spec fn starts_in_dot(p: Seq<char>) -> bool {
    segments(p)[0] == seq!['.']
}

/// What precedes the names: the root, a leading `.`, or nothing.
pub open spec fn anchor(p: Seq<char>) -> Seq<Seq<char>> {
    if is_absolute(p) {
        seq![seq!['/']]
    } else if starts_in_dot(p) {
        seq![seq!['.']]
    } else {
        Seq::empty()
    }
}

/// The components of a path. Two paths are the same path when these are equal.
pub open spec fn components(p: Seq<char>) -> Seq<Seq<char>> {
    anchor(p) + names(segments(p))
}

/// `p` is `base` or lies below it.
pub open spec fn under(p: Seq<char>, base: Seq<char>) -> bool {
    components(base).len() <= components(p).len() && components(p).take(
        components(base).len() as int,
    ) == components(base)
}

/// `base` extended by `rel`, or `rel` alone when it is absolute.
pub open spec fn join(base: Seq<char>, rel: Seq<char>) -> Seq<char> {
    if is_absolute(rel) {
        rel
    } else if base.len() == 0 || base.last() == '/' {
        base + rel
    } else {
        base + seq!['/'] + rel
    }
}

pub proof fn lemma_segments_nonempty(p: Seq<char>)
    ensures
        segments(p).len() > 0,
    decreases p.len(),
{
    if p.len() > 0 {
        lemma_segments_nonempty(p.drop_last());
    }
}

/// A separator splits the segments in two.
pub proof fn lemma_segments_concat(a: Seq<char>, b: Seq<char>)
    ensures
        segments(a + seq!['/'] + b) == segments(a) + segments(b),
    decreases b.len(),
{
    let whole = a + seq!['/'] + b;
    if b.len() == 0 {
        assert(whole.drop_last() =~= a);
        assert(segments(b) =~= seq![Seq::<char>::empty()]);
        assert(segments(whole) =~= segments(a) + segments(b));
    } else {
        lemma_segments_concat(a, b.drop_last());
        lemma_segments_nonempty(b.drop_last());
        lemma_segments_nonempty(a);
        assert(whole.drop_last() =~= a + seq!['/'] + b.drop_last());
        assert(whole.last() == b.last());
        assert(segments(whole) =~= segments(a) + segments(b));
    }
}

pub proof fn lemma_names_concat(a: Seq<Seq<char>>, b: Seq<Seq<char>>)
    ensures
        names(a + b) == names(a) + names(b),
    decreases b.len(),
{
    if b.len() == 0 {
        assert(a + b =~= a);
        assert(names(a) + names(b) =~= names(a));
    } else {
        lemma_names_concat(a, b.drop_last());
        assert((a + b).drop_last() =~= a + b.drop_last());
        assert((a + b).last() == b.last());
        assert(names(a + b) =~= names(a) + names(b));
    }
}

/// An absolute path starts with an empty segment.
pub proof fn lemma_absolute_first_segment(p: Seq<char>)
    requires
        is_absolute(p),
    ensures
        segments(p).len() >= 2,
        segments(p)[0] == Seq::<char>::empty(),
        !starts_in_dot(p),
    decreases p.len(),
{
    if p.len() == 1 {
        reveal_with_fuel(segments, 2);
        assert(p.drop_last() =~= Seq::<char>::empty());
    } else {
        lemma_absolute_first_segment(p.drop_last());
    }
    assert(Seq::<char>::empty() != seq!['.']) by {
        assert(Seq::<char>::empty().len() != seq!['.'].len());
    }
}

/// A separator at the end adds no name.
proof fn lemma_trailing_separator(p: Seq<char>)
    requires
        p.len() > 0,
        p.last() == '/',
    ensures
        names(segments(p)) == names(segments(p.drop_last())),
{
    assert(segments(p).drop_last() =~= segments(p.drop_last()));
}

/// Joining a relative path that does not start in `.` appends its components.
pub proof fn lemma_join_components(base: Seq<char>, rel: Seq<char>)
    requires
        !is_absolute(rel),
        !starts_in_dot(rel),
    ensures
        components(join(base, rel)) == components(base) + components(rel),
{
    let whole = join(base, rel);
    if base.len() == 0 {
        assert(whole =~= rel);
        assert(segments(base) =~= seq![Seq::<char>::empty()]);
        reveal_with_fuel(names, 2);
        assert(names(segments(base)) =~= Seq::empty());
        assert(Seq::<char>::empty() != seq!['.']) by {
            assert(Seq::<char>::empty().len() != seq!['.'].len());
        }
        assert(components(base) =~= Seq::<Seq<char>>::empty());
        assert(components(whole) =~= components(base) + components(rel));
    } else {
        let stem = if base.last() == '/' {
            base.drop_last()
        } else {
            base
        };
        assert(whole =~= stem + seq!['/'] + rel);
        lemma_segments_concat(stem, rel);
        lemma_names_concat(segments(stem), segments(rel));
        lemma_segments_nonempty(stem);
        if base.last() == '/' {
            lemma_trailing_separator(base);
        }
        assert(segments(base)[0] == segments(stem)[0]);
        if stem.len() == 0 {
            assert(is_absolute(whole) && is_absolute(base));
        } else {
            assert(whole[0] == base[0]);
        }
        assert(anchor(whole) == anchor(base));
        assert(components(whole) =~= components(base) + components(rel));
    }
}

/// What is joined to a base lies under it.
pub proof fn lemma_join_under(base: Seq<char>, rel: Seq<char>)
    requires
        !is_absolute(rel),
        !starts_in_dot(rel),
    ensures
        under(join(base, rel), base),
{
    lemma_join_components(base, rel);
    assert(components(join(base, rel)).take(components(base).len() as int) =~= components(base));
}

pub proof fn lemma_under_transitive(a: Seq<char>, b: Seq<char>, c: Seq<char>)
    requires
        under(a, b),
        under(b, c),
    ensures
        under(a, c),
{
    assert(components(a).take(components(c).len() as int) =~= components(b).take(
        components(c).len() as int,
    ));
}

/// The pieces between the separators, empty ones too.
fn split_segments(p: &str) -> (out: Vec<String>)
    ensures
        views(out@) == segments(p@),
{
    let chars = chars_of(p);
    let mut out: Vec<String> = Vec::new();
    let mut current = String::new();
    let mut i: usize = 0;
    proof {
        assert(p@.take(0) =~= Seq::<char>::empty());
        assert(segments(p@.take(0)) =~= views(out@).push(current@));
    }
    while i < chars.len()
        invariant
            i <= chars@.len(),
            chars@ == p@,
            segments(p@.take(i as int)) == views(out@).push(current@),
        decreases chars@.len() - i,
    {
        let ghost seen = p@.take(i as int);
        assert(p@.take(i + 1).drop_last() =~= seen);
        assert(segments(seen).drop_last() =~= views(out@));
        if chars[i] == '/' {
            out.push(current);
            current = String::new();
            assert(segments(p@.take(i + 1)) =~= views(out@).push(current@));
        } else {
            current.push(chars[i]);
            assert(segments(p@.take(i + 1)) =~= views(out@).push(current@));
        }
        i += 1;
    }
    assert(p@.take(p@.len() as int) =~= p@);
    out.push(current);
    out
}

fn is_name_text(segment: &str) -> (r: bool)
    ensures
        r == is_name(segment@),
{
    let c = chars_of(segment);
    if c.len() == 0 {
        return false;
    }
    assert(segment@ == seq!['.'] <==> (segment@.len() == 1 && segment@[0] == '.')) by {
        if segment@.len() == 1 && segment@[0] == '.' {
            assert(segment@ =~= seq!['.']);
        }
    }
    !(c.len() == 1 && c[0] == '.')
}

pub fn absolute(p: &str) -> (r: bool)
    ensures
        r == is_absolute(p@),
{
    let c = chars_of(p);
    c.len() > 0 && c[0] == '/'
}

/// The components of a path.
pub fn components_of(p: &str) -> (out: Vec<String>)
    ensures
        views(out@) == components(p@),
{
    let segs = split_segments(p);
    let mut out: Vec<String> = Vec::new();
    proof {
        lemma_segments_nonempty(p@);
    }
    if absolute(p) {
        let mut root = String::new();
        root.push('/');
        assert(root@ =~= seq!['/']);
        out.push(root);
    } else {
        assert(views(segs@)[0] == segs@[0]@);
        let first = chars_of(segs[0].as_str());
        assert(first@ == seq!['.'] <==> (first@.len() == 1 && first@[0] == '.')) by {
            if first@.len() == 1 && first@[0] == '.' {
                assert(first@ =~= seq!['.']);
            }
        }
        if first.len() == 1 && first[0] == '.' {
            out.push(segs[0].clone());
        }
    }
    assert(views(out@) =~= anchor(p@));
    let mut i: usize = 0;
    let ghost all = segments(p@);
    assert(names(all.take(0)) =~= Seq::empty());
    assert(anchor(p@) + Seq::empty() =~= anchor(p@));
    while i < segs.len()
        invariant
            i <= segs@.len(),
            all == segments(p@),
            views(segs@) == all,
            views(out@) == anchor(p@) + names(all.take(i as int)),
        decreases segs@.len() - i,
    {
        assert(all.take(i + 1).drop_last() =~= all.take(i as int));
        assert(all.take(i + 1).last() == views(segs@)[i as int]);
        if is_name_text(segs[i].as_str()) {
            out.push(segs[i].clone());
            assert(views(out@) =~= anchor(p@) + names(all.take(i + 1)));
        }
        i += 1;
    }
    assert(all.take(all.len() as int) =~= all);
    out
}

fn is_prefix(whole: &Vec<String>, start: &Vec<String>) -> (r: bool)
    ensures
        r == (start@.len() <= whole@.len() && views(whole@).take(start@.len() as int) == views(
            start@,
        )),
{
    if start.len() > whole.len() {
        return false;
    }
    let mut i: usize = 0;
    while i < start.len()
        invariant
            i <= start@.len() <= whole@.len(),
            forall|k: int| 0 <= k < i ==> (#[trigger] whole@[k])@ == start@[k]@,
        decreases start@.len() - i,
    {
        if !same(whole[i].as_str(), start[i].as_str()) {
            assert(views(whole@).take(start@.len() as int)[i as int] != views(start@)[i as int]);
            return false;
        }
        i += 1;
    }
    assert(views(whole@).take(start@.len() as int) =~= views(start@));
    true
}

/// Whether `p` is `base` or lies below it.
pub fn is_under(p: &str, base: &str) -> (r: bool)
    ensures
        r == under(p@, base@),
{
    let whole = components_of(p);
    let start = components_of(base);
    is_prefix(&whole, &start)
}

/// Whether two texts name the same path.
pub fn same_path(a: &str, b: &str) -> (r: bool)
    ensures
        r == (components(a@) == components(b@)),
{
    let left = components_of(a);
    let right = components_of(b);
    if left.len() != right.len() {
        assert(views(left@).len() != views(right@).len());
        return false;
    }
    let r = is_prefix(&left, &right);
    assert(views(left@).take(right@.len() as int) =~= views(left@));
    r
}

/// `base` extended by `rel`.
pub fn join_path(base: &str, rel: &str) -> (out: String)
    ensures
        out@ == join(base@, rel@),
{
    if absolute(rel) {
        return rel.to_owned();
    }
    let b = chars_of(base);
    if b.len() == 0 || b[b.len() - 1] == '/' {
        base.to_owned().concat(rel)
    } else {
        let mut out = base.to_owned();
        out.push('/');
        assert(out@ =~= base@ + seq!['/']);
        out.concat(rel)
    }
}

/// The name of the entry a path ends in. The root, `.` and `..` have none.
pub open spec fn file_name(p: Seq<char>) -> Option<Seq<char>> {
    let found = names(segments(p));
    if found.len() == 0 || found.last() == seq!['.', '.'] {
        None
    } else {
        Some(found.last())
    }
}

fn is_dot_dot(c: &Vec<char>) -> (r: bool)
    ensures
        r == (c@ == seq!['.', '.']),
{
    if c.len() == 2 && c[0] == '.' && c[1] == '.' {
        assert(c@ =~= seq!['.', '.']);
        true
    } else {
        false
    }
}

pub fn file_name_of(p: &str) -> (out: Option<String>)
    ensures
        option_text(out) == file_name(p@),
{
    let segs = split_segments(p);
    let mut i: usize = segs.len();
    let ghost all = segments(p@);
    assert(all.take(all.len() as int) =~= all);
    while i > 0
        invariant
            i <= segs@.len(),
            all == segments(p@),
            views(segs@) == all,
            names(all) == names(all.take(i as int)),
        decreases i,
    {
        assert(all.take(i as int).drop_last() =~= all.take(i - 1));
        assert(all.take(i as int).last() == views(segs@)[i - 1]);
        let segment = &segs[i - 1];
        if is_name_text(segment.as_str()) {
            if is_dot_dot(&chars_of(segment.as_str())) {
                return None;
            }
            return Some(segment.clone());
        }
        i -= 1;
    }
    assert(names(all.take(0)) =~= Seq::empty());
    None
}

/// The name of the entry, or nothing.
pub open spec fn name_or_empty(p: Seq<char>) -> Seq<char> {
    match file_name(p) {
        Some(name) => name,
        None => Seq::empty(),
    }
}

pub fn name_or_empty_of(p: &str) -> (out: String)
    ensures
        out@ == name_or_empty(p@),
{
    match file_name_of(p) {
        Some(name) => name,
        None => String::new(),
    }
}

/// Where the last `.` of a file name stands that splits off an extension: not the first character.
pub open spec fn extension_dot(name: Seq<char>) -> Option<int>
    decreases name.len(),
{
    if name.len() <= 1 {
        None
    } else if name.last() == '.' {
        Some(name.len() - 1)
    } else {
        extension_dot(name.drop_last())
    }
}

/// The part of the file name behind its last `.`.
pub open spec fn extension(p: Seq<char>) -> Option<Seq<char>> {
    match file_name(p) {
        Some(name) => match extension_dot(name) {
            Some(dot) => Some(name.skip(dot + 1)),
            None => None,
        },
        None => None,
    }
}

/// The part of the file name before its last `.`, or nothing where there is no file name.
pub open spec fn stem(p: Seq<char>) -> Seq<char> {
    match file_name(p) {
        Some(name) => match extension_dot(name) {
            Some(dot) => name.take(dot),
            None => name,
        },
        None => Seq::empty(),
    }
}

fn find_extension_dot(name: &Vec<char>) -> (out: Option<usize>)
    ensures
        match out {
            Some(dot) => extension_dot(name@) == Some(dot as int) && 0 < dot < name@.len(),
            None => extension_dot(name@) is None,
        },
{
    let mut n: usize = name.len();
    assert(name@.take(n as int) =~= name@);
    while n > 1
        invariant
            n <= name@.len(),
            extension_dot(name@) == extension_dot(name@.take(n as int)),
        decreases n,
    {
        if name[n - 1] == '.' {
            return Some(n - 1);
        }
        assert(name@.take(n as int).drop_last() =~= name@.take(n - 1));
        n -= 1;
    }
    None
}

pub fn extension_of(p: &str) -> (out: Option<String>)
    ensures
        option_text(out) == extension(p@),
{
    match file_name_of(p) {
        Some(name) => {
            let chars = chars_of(name.as_str());
            let total: usize = chars.len();
            match find_extension_dot(&chars) {
                Some(dot) => {
                    assert(chars@.subrange(dot + 1, chars@.len() as int) =~= chars@.skip(dot + 1));
                    Some(slice_text(&chars, dot + 1, total))
                },
                None => None,
            }
        },
        None => None,
    }
}

pub fn stem_of(p: &str) -> (out: String)
    ensures
        out@ == stem(p@),
{
    match file_name_of(p) {
        Some(name) => {
            let chars = chars_of(name.as_str());
            match find_extension_dot(&chars) {
                Some(dot) => {
                    assert(chars@.subrange(0, dot as int) =~= chars@.take(dot as int));
                    slice_text(&chars, 0, dot)
                },
                None => name,
            }
        },
        None => String::new(),
    }
}

/// The segments from the first one on that is a name.
pub open spec fn trim_front(segs: Seq<Seq<char>>) -> Seq<Seq<char>>
    decreases segs.len(),
{
    if segs.len() > 0 && !is_name(segs[0]) {
        trim_front(segs.skip(1))
    } else {
        segs
    }
}

/// The segments up to the last one that is a name.
pub open spec fn trim_back(segs: Seq<Seq<char>>) -> Seq<Seq<char>>
    decreases segs.len(),
{
    if segs.len() > 0 && !is_name(segs.last()) {
        trim_back(segs.drop_last())
    } else {
        segs
    }
}

/// The segments left when the first `n` names are taken away, from the next name on.
pub open spec fn drop_names(segs: Seq<Seq<char>>, n: nat) -> Seq<Seq<char>>
    decreases n,
{
    if n == 0 {
        trim_front(segs)
    } else {
        drop_names(trim_front(segs).skip(1), (n - 1) as nat)
    }
}

/// The text of a path below one of `n` components that it starts with.
pub open spec fn text_below(p: Seq<char>, n: nat) -> Seq<char> {
    let segs = segments(p);
    let slash = seq!['/'];
    if n == 0 && is_absolute(p) {
        slash + joined(trim_back(segs.skip(1)), slash)
    } else if n == 0 && starts_in_dot(p) {
        joined(seq![seq!['.']] + trim_back(segs.skip(1)), slash)
    } else if n == 0 {
        joined(trim_back(segs), slash)
    } else if is_absolute(p) || starts_in_dot(p) {
        joined(trim_back(drop_names(segs.skip(1), (n - 1) as nat)), slash)
    } else {
        joined(trim_back(drop_names(segs, n)), slash)
    }
}

fn vec_from(segs: &Vec<String>, from: usize, to: usize) -> (out: Vec<String>)
    requires
        from <= to <= segs@.len(),
    ensures
        views(out@) == views(segs@).subrange(from as int, to as int),
{
    let mut out: Vec<String> = Vec::new();
    let mut i: usize = from;
    while i < to
        invariant
            from <= i <= to <= segs@.len(),
            views(out@) == views(segs@).subrange(from as int, i as int),
        decreases to - i,
    {
        out.push(segs[i].clone());
        i += 1;
        assert(views(segs@).subrange(from as int, i as int) =~= views(segs@).subrange(
            from as int,
            i - 1,
        ).push(segs@[i - 1]@));
    }
    assert(views(out@) =~= views(segs@).subrange(from as int, to as int));
    out
}

/// The position of the first name from `from` on, up to `to`.
fn front_of(segs: &Vec<String>, from: usize) -> (i: usize)
    requires
        from <= segs@.len(),
    ensures
        from <= i <= segs@.len(),
        trim_front(views(segs@).skip(from as int)) == views(segs@).skip(i as int),
{
    let mut i: usize = from;
    while i < segs.len() && !is_name_text(segs[i].as_str())
        invariant
            from <= i <= segs@.len(),
            trim_front(views(segs@).skip(from as int)) == trim_front(views(segs@).skip(i as int)),
        decreases segs@.len() - i,
    {
        assert(views(segs@).skip(i as int).skip(1) =~= views(segs@).skip(i + 1));
        assert(views(segs@).skip(i as int)[0] == segs@[i as int]@);
        i += 1;
    }
    if i < segs.len() {
        assert(views(segs@).skip(i as int)[0] == segs@[i as int]@);
    }
    i
}

/// The end of the last name at or behind `from`.
fn back_of(segs: &Vec<String>, from: usize) -> (i: usize)
    requires
        from <= segs@.len(),
    ensures
        from <= i <= segs@.len(),
        trim_back(views(segs@).skip(from as int)) == views(segs@).subrange(from as int, i as int),
{
    let mut i: usize = segs.len();
    assert(views(segs@).skip(from as int) =~= views(segs@).subrange(from as int, i as int));
    while i > from && !is_name_text(segs[i - 1].as_str())
        invariant
            from <= i <= segs@.len(),
            trim_back(views(segs@).skip(from as int)) == trim_back(
                views(segs@).subrange(from as int, i as int),
            ),
        decreases i,
    {
        let ghost part = views(segs@).subrange(from as int, i as int);
        assert(part.drop_last() =~= views(segs@).subrange(from as int, i - 1));
        assert(part.last() == segs@[i - 1]@);
        i -= 1;
    }
    if i > from {
        assert(views(segs@).subrange(from as int, i as int).last() == segs@[i - 1]@);
    }
    i
}

/// The position behind the first `n` names from `from` on, moved on to the next name.
fn skip_names(segs: &Vec<String>, from: usize, n: usize) -> (i: usize)
    requires
        from <= segs@.len(),
        n <= names(views(segs@).skip(from as int)).len(),
    ensures
        from <= i <= segs@.len(),
        drop_names(views(segs@).skip(from as int), n as nat) == views(segs@).skip(i as int),
    decreases n,
{
    let total: usize = segs.len();
    let at = front_of(segs, from);
    if n == 0 {
        return at;
    }
    proof {
        lemma_trim_front_names(views(segs@).skip(from as int));
        let rest = views(segs@).skip(at as int);
        if at == segs@.len() {
            assert(rest =~= Seq::empty());
            assert(names(rest) =~= Seq::empty());
        }
        assert(rest =~= seq![rest[0]] + rest.skip(1));
        lemma_names_concat(seq![rest[0]], rest.skip(1));
        lemma_names_one(rest[0]);
        assert(rest.skip(1) =~= views(segs@).skip(at + 1));
    }
    skip_names(segs, at + 1, n - 1)
}

proof fn lemma_names_one(segment: Seq<char>)
    ensures
        names(seq![segment]) == if is_name(segment) {
            seq![segment]
        } else {
            Seq::empty()
        },
{
    reveal_with_fuel(names, 2);
    assert(seq![segment].drop_last() =~= Seq::empty());
    assert(names(seq![segment]) =~= if is_name(segment) {
        seq![segment]
    } else {
        Seq::empty()
    });
}

proof fn lemma_trim_front_names(segs: Seq<Seq<char>>)
    ensures
        names(trim_front(segs)) == names(segs),
    decreases segs.len(),
{
    if segs.len() > 0 && !is_name(segs[0]) {
        lemma_trim_front_names(segs.skip(1));
        assert(segs =~= seq![segs[0]] + segs.skip(1));
        lemma_names_concat(seq![segs[0]], segs.skip(1));
        lemma_names_one(segs[0]);
        assert(names(segs) =~= names(segs.skip(1)));
    }
}

/// The text of `p` below `base`, where `p` lies under `base`.
pub fn strip_base(p: &str, base: &str) -> (out: Option<String>)
    ensures
        match out {
            Some(rest) => under(p@, base@) && rest@ == text_below(p@, components(base@).len()),
            None => !under(p@, base@),
        },
{
    if !is_under(p, base) {
        return None;
    }
    let n: usize = components_of(base).len();
    let segs = split_segments(p);
    let ghost all = segments(p@);
    let ghost slash = seq!['/'];
    let mut separator = String::new();
    separator.push('/');
    assert(separator@ =~= slash);
    proof {
        lemma_segments_nonempty(p@);
        assert(views(segs@)[0] == segs@[0]@);
        if is_absolute(p@) {
            lemma_absolute_first_segment(p@);
        }
        assert(all =~= seq![all[0]] + all.skip(1));
        lemma_names_concat(seq![all[0]], all.skip(1));
        lemma_names_one(all[0]);
        assert(all.skip(0) =~= all);
    }
    let first = chars_of(segs[0].as_str());
    assert(first@ == seq!['.'] <==> (first@.len() == 1 && first@[0] == '.')) by {
        if first@.len() == 1 && first@[0] == '.' {
            assert(first@ =~= seq!['.']);
        }
    }
    let in_dot = first.len() == 1 && first[0] == '.';
    let anchored = absolute(p) || in_dot;
    if n == 0 {
        if anchored {
            let end = back_of(&segs, 1);
            let rest = vec_from(&segs, 1, end);
            if in_dot {
                let tail = vec_from(&segs, 0, end);
                assert(views(tail@) =~= seq![seq!['.']] + trim_back(all.skip(1)));
                Some(join_text(&tail, separator.as_str()))
            } else {
                let text = join_text(&rest, separator.as_str());
                Some(separator.concat(text.as_str()))
            }
        } else {
            let end = back_of(&segs, 0);
            Some(join_text(&vec_from(&segs, 0, end), separator.as_str()))
        }
    } else if anchored {
        assert(names(all.skip(1)).len() >= n - 1);
        let at = skip_names(&segs, 1, n - 1);
        let end = back_of(&segs, at);
        Some(join_text(&vec_from(&segs, at, end), separator.as_str()))
    } else {
        assert(names(all).len() >= n);
        let at = skip_names(&segs, 0, n);
        let end = back_of(&segs, at);
        Some(join_text(&vec_from(&segs, at, end), separator.as_str()))
    }
}

/// Taking away as many names as `a` holds leaves `b`, from its first name on.
proof fn lemma_drop_names_concat(a: Seq<Seq<char>>, b: Seq<Seq<char>>)
    requires
        b.len() > 0,
        is_name(b[0]),
    ensures
        drop_names(a + b, names(a).len()) == b,
    decreases a.len(),
{
    if a.len() == 0 {
        assert(a + b =~= b);
        assert(names(a) =~= Seq::empty());
    } else {
        let rest = a.skip(1);
        assert(a =~= seq![a[0]] + rest);
        lemma_names_concat(seq![a[0]], rest);
        lemma_names_one(a[0]);
        lemma_drop_names_concat(rest, b);
        assert((a + b).skip(1) =~= rest + b);
        assert((a + b)[0] == a[0]);
        if !is_name(a[0]) {
            assert(names(a) =~= names(rest));
            assert(trim_front(a + b) == trim_front(rest + b));
            if names(a).len() == 0 {
                assert(drop_names(a + b, 0) == trim_front(rest + b));
            } else {
                assert(drop_names(a + b, names(a).len()) == drop_names(
                    rest + b,
                    names(rest).len(),
                ));
            }
        }
    }
}

/// Joining the segments of a text gives the text back.
pub proof fn lemma_join_segments(p: Seq<char>)
    ensures
        joined(segments(p), seq!['/']) == p,
    decreases p.len(),
{
    let segs = segments(p);
    if p.len() == 0 {
        assert(joined(segs, seq!['/']) =~= p);
    } else {
        let before = segments(p.drop_last());
        lemma_segments_nonempty(p.drop_last());
        lemma_join_segments(p.drop_last());
        if p.last() == '/' {
            assert(segs.drop_last() =~= before);
            assert(joined(segs, seq!['/']) =~= p);
        } else if before.len() == 1 {
            assert(segs =~= seq![before[0].push(p.last())]);
            assert(joined(segs, seq!['/']) =~= p);
        } else {
            assert(segs.drop_last() =~= before.drop_last());
            assert(joined(segs, seq!['/']) =~= joined(before, seq!['/']).push(p.last()));
            assert(joined(segs, seq!['/']) =~= p);
        }
    }
}

/// A relative path that starts and ends in a name: no separator or `.` is lost at its ends.
pub open spec fn spans_names(rel: Seq<char>) -> bool {
    is_name(segments(rel)[0]) && is_name(segments(rel).last())
}

/// The text of `base` joined with a path that starts and ends in a name, below `base`, is that
/// path.
pub proof fn lemma_text_below_join(base: Seq<char>, rel: Seq<char>)
    requires
        spans_names(rel),
    ensures
        text_below(join(base, rel), components(base).len()) == rel,
        under(join(base, rel), base),
{
    lemma_segments_nonempty(rel);
    if base.len() == 0 {
        lemma_text_below_nothing(base, rel);
    } else {
        lemma_text_below_some(base, rel);
    }
}

proof fn lemma_no_components(base: Seq<char>)
    requires
        base.len() == 0,
    ensures
        components(base) == Seq::<Seq<char>>::empty(),
        segments(base) == seq![Seq::<char>::empty()],
{
    let segs = segments(base);
    assert(segs =~= seq![Seq::<char>::empty()]);
    assert(segs.drop_last() =~= Seq::empty());
    assert(segs[0].len() == 0);
    assert(seq!['.'].len() == 1);
    assert(!is_name(segs.last()));
    assert(names(segs.drop_last()) =~= Seq::empty());
    assert(names(segs) =~= Seq::empty());
    assert(components(base) =~= Seq::empty());
}

proof fn lemma_text_below_nothing(base: Seq<char>, rel: Seq<char>)
    requires
        spans_names(rel),
        base.len() == 0,
        segments(rel).len() > 0,
    ensures
        text_below(join(base, rel), components(base).len()) == rel,
        under(join(base, rel), base),
{
    if is_absolute(rel) {
        lemma_absolute_first_segment(rel);
    }
    lemma_no_components(base);
    assert(join(base, rel) =~= rel);
    assert(components(rel).take(0) =~= Seq::empty());
    let segs = segments(rel);
    assert(is_name(segs.last()));
    assert(trim_back(segs) == segs);
    lemma_join_segments(rel);
}

#[verifier::rlimit(60)]
proof fn lemma_text_below_some(base: Seq<char>, rel: Seq<char>)
    requires
        spans_names(rel),
        base.len() > 0,
        segments(rel).len() > 0,
    ensures
        text_below(join(base, rel), components(base).len()) == rel,
        under(join(base, rel), base),
{
    if is_absolute(rel) {
        lemma_absolute_first_segment(rel);
    }
    lemma_join_under(base, rel);
    let whole = join(base, rel);
    let stem = if base.last() == '/' {
        base.drop_last()
    } else {
        base
    };
    assert(whole =~= stem + seq!['/'] + rel);
    lemma_segments_concat(stem, rel);
    lemma_segments_nonempty(stem);
    let a = segments(stem);
    let b = segments(rel);
    let all = segments(whole);
    if base.last() == '/' {
        lemma_trailing_separator(base);
    }
    assert(segments(base)[0] == a[0]);
    assert(whole[0] == base[0]);
    lemma_drop_names_concat(a, b);
    lemma_drop_names_concat(a.skip(1), b);
    assert(all.skip(1) =~= a.skip(1) + b);
    assert(is_name(b.last()));
    assert(trim_back(b) == b);
    lemma_join_segments(rel);
    assert(a =~= seq![a[0]] + a.skip(1));
    lemma_names_concat(seq![a[0]], a.skip(1));
    lemma_names_one(a[0]);
    if is_absolute(base) {
        lemma_absolute_first_segment(base);
        assert(names(a) =~= names(a.skip(1)));
    } else if starts_in_dot(base) {
        assert(names(a) =~= names(a.skip(1)));
    } else {
        assert(components(base) =~= names(a));
        assert(is_name(a[0])) by {
            lemma_relative_first_segment(base);
        }
    }
}

/// A nonempty relative path starts with a nonempty segment.
proof fn lemma_relative_first_segment(p: Seq<char>)
    requires
        p.len() > 0,
        !is_absolute(p),
    ensures
        segments(p)[0].len() > 0,
    decreases p.len(),
{
    lemma_segments_nonempty(p.drop_last());
    if p.len() == 1 {
        reveal_with_fuel(segments, 2);
        assert(p.drop_last() =~= Seq::<char>::empty());
    } else {
        lemma_relative_first_segment(p.drop_last());
    }
}

/// A text whose first two characters are no separators starts with a segment of two or more.
pub proof fn lemma_first_segment_two(p: Seq<char>)
    requires
        p.len() >= 2,
        p[0] != '/',
        p[1] != '/',
    ensures
        segments(p)[0].len() >= 2,
    decreases p.len(),
{
    lemma_segments_nonempty(p.drop_last());
    if p.len() == 2 {
        reveal_with_fuel(segments, 3);
        assert(p.drop_last().drop_last() =~= Seq::<char>::empty());
    } else {
        lemma_first_segment_two(p.drop_last());
    }
}

/// Below itself a path has no text.
pub proof fn lemma_text_below_itself(p: Seq<char>)
    ensures
        text_below(p, components(p).len()).len() == 0,
{
    let all = segments(p);
    lemma_segments_nonempty(p);
    if p.len() == 0 {
        lemma_no_components(p);
        assert(all.last().len() == 0);
        assert(trim_back(all) =~= Seq::empty()) by {
            reveal_with_fuel(trim_back, 2);
        }
    } else {
        assert(all =~= seq![all[0]] + all.skip(1));
        lemma_names_concat(seq![all[0]], all.skip(1));
        lemma_names_one(all[0]);
        if is_absolute(p) {
            lemma_absolute_first_segment(p);
        } else {
            lemma_relative_first_segment(p);
        }
        if is_absolute(p) || starts_in_dot(p) {
            lemma_drop_all_names(all.skip(1));
        } else {
            lemma_drop_all_names(all);
        }
    }
}

proof fn lemma_drop_all_names(segs: Seq<Seq<char>>)
    ensures
        drop_names(segs, names(segs).len()).len() == 0,
    decreases segs.len(),
{
    lemma_trim_front_names(segs);
    let rest = trim_front(segs);
    lemma_trim_front_len(segs);
    if names(segs).len() > 0 {
        assert(rest.len() > 0) by {
            if rest.len() == 0 {
                assert(names(rest).len() == 0);
            }
        }
        assert(rest =~= seq![rest[0]] + rest.skip(1));
        lemma_names_concat(seq![rest[0]], rest.skip(1));
        lemma_names_one(rest[0]);
        lemma_drop_all_names(rest.skip(1));
    } else if rest.len() > 0 {
        assert(rest =~= seq![rest[0]] + rest.skip(1));
        lemma_names_concat(seq![rest[0]], rest.skip(1));
        lemma_names_one(rest[0]);
    }
}

proof fn lemma_trim_front_len(segs: Seq<Seq<char>>)
    ensures
        trim_front(segs).len() <= segs.len(),
        trim_front(segs).len() > 0 ==> is_name(trim_front(segs)[0]),
    decreases segs.len(),
{
    if segs.len() > 0 && !is_name(segs[0]) {
        lemma_trim_front_len(segs.skip(1));
    }
}

/// No segment holds a separator.
proof fn lemma_segments_plain(p: Seq<char>)
    ensures
        forall|i: int| 0 <= i < segments(p).len() ==> !(#[trigger] segments(p)[i]).contains('/'),
    decreases p.len(),
{
    if p.len() > 0 {
        let before = segments(p.drop_last());
        lemma_segments_plain(p.drop_last());
        lemma_segments_nonempty(p.drop_last());
        let now = segments(p);
        assert forall|i: int| 0 <= i < now.len() implies !(#[trigger] now[i]).contains('/') by {
            if p.last() == '/' {
                if i < before.len() {
                    assert(now[i] == before[i]);
                }
            } else if i < before.len() - 1 {
                assert(now[i] == before[i]);
            } else {
                assert(!before[before.len() - 1].contains('/'));
                let last = before.last();
                if now[i].contains('/') {
                    let k = choose|k: int| 0 <= k < now[i].len() && now[i][k] == '/';
                    if k < last.len() {
                        assert(last[k] == '/');
                    }
                }
            }
        }
    }
}

/// Names that a path is made of: no separator in any of them.
pub open spec fn are_names(parts: Seq<Seq<char>>) -> bool {
    forall|i: int|
        0 <= i < parts.len() ==> is_name(#[trigger] parts[i]) && !parts[i].contains('/')
}

proof fn lemma_names_plain(segs: Seq<Seq<char>>)
    requires
        forall|i: int| 0 <= i < segs.len() ==> !(#[trigger] segs[i]).contains('/'),
    ensures
        are_names(names(segs)),
    decreases segs.len(),
{
    if segs.len() > 0 {
        let rest = segs.drop_last();
        assert forall|i: int| 0 <= i < rest.len() implies !(#[trigger] rest[i]).contains('/') by {
            assert(rest[i] == segs[i]);
        }
        lemma_names_plain(rest);
        let before = names(rest);
        assert forall|i: int| 0 <= i < names(segs).len() implies is_name(#[trigger] names(segs)[i])
            && !names(segs)[i].contains('/') by {
            if i < before.len() {
                assert(names(segs)[i] == before[i]);
            } else {
                assert(!segs[segs.len() - 1].contains('/'));
            }
        }
    }
}

pub proof fn lemma_segments_one(part: Seq<char>)
    requires
        !part.contains('/'),
    ensures
        segments(part) == seq![part],
    decreases part.len(),
{
    if part.len() == 0 {
        assert(part =~= Seq::<char>::empty());
        assert(segments(part) == seq![Seq::<char>::empty()]);
    } else {
        assert(!part.drop_last().contains('/')) by {
            if part.drop_last().contains('/') {
                let k = choose|k: int| 0 <= k < part.drop_last().len() && part.drop_last()[k] == '/';
                assert(part[k] == '/');
            }
        }
        lemma_segments_one(part.drop_last());
        assert(part.last() != '/') by {
            assert(part.contains(part[part.len() - 1]));
        }
        let before = segments(part.drop_last());
        assert(part.drop_last().push(part.last()) =~= part);
        assert(before.last() == part.drop_last());
        assert(before.drop_last() =~= Seq::empty());
        assert(segments(part) == before.drop_last().push(before.last().push(part.last())));
        assert(segments(part) =~= seq![part]);
    }
}

proof fn lemma_segments_joined(parts: Seq<Seq<char>>)
    requires
        parts.len() > 0,
        forall|i: int| 0 <= i < parts.len() ==> !(#[trigger] parts[i]).contains('/'),
    ensures
        segments(joined(parts, seq!['/'])) == parts,
    decreases parts.len(),
{
    assert(!parts[parts.len() - 1].contains('/'));
    lemma_segments_one(parts.last());
    if parts.len() == 1 {
        assert(parts =~= seq![parts[0]]);
    } else {
        let rest = parts.drop_last();
        assert forall|i: int| 0 <= i < rest.len() implies !(#[trigger] rest[i]).contains('/') by {
            assert(rest[i] == parts[i]);
        }
        lemma_segments_joined(rest);
        lemma_segments_concat(joined(rest, seq!['/']), parts.last());
        assert(parts =~= rest + seq![parts.last()]);
    }
}

proof fn lemma_names_of_names(parts: Seq<Seq<char>>)
    requires
        are_names(parts),
    ensures
        names(parts) == parts,
    decreases parts.len(),
{
    if parts.len() > 0 {
        let rest = parts.drop_last();
        assert forall|i: int| 0 <= i < rest.len() implies is_name(#[trigger] rest[i])
            && !rest[i].contains('/') by {
            assert(rest[i] == parts[i]);
        }
        lemma_names_of_names(rest);
        assert(is_name(parts[parts.len() - 1]));
    }
    assert(names(parts) =~= parts);
}

/// The plainest spelling of a path: its components with one separator between two of them.
pub open spec fn spelled(comps: Seq<Seq<char>>) -> Seq<char> {
    if comps.len() > 0 && comps[0] == seq!['/'] {
        seq!['/'] + joined(comps.skip(1), seq!['/'])
    } else {
        joined(comps, seq!['/'])
    }
}

/// The plainest spelling of a path is a spelling of it.
pub proof fn lemma_spelled(p: Seq<char>)
    ensures
        components(spelled(components(p))) == components(p),
{
    let slash = seq!['/'];
    let dot = seq!['.'];
    let comps = components(p);
    let parts = names(segments(p));
    lemma_segments_plain(p);
    lemma_names_plain(segments(p));
    lemma_names_of_names(parts);
    let text = spelled(comps);
    assert(dot != slash) by {
        assert(dot[0] != slash[0]);
    }
    if is_absolute(p) {
        assert(comps.skip(1) =~= parts);
        let rest = joined(parts, slash);
        assert(text =~= Seq::<char>::empty() + slash + rest);
        lemma_segments_concat(Seq::empty(), rest);
        lemma_names_concat(segments(Seq::<char>::empty()), segments(rest));
        lemma_names_one(Seq::<char>::empty());
        assert(segments(Seq::<char>::empty()) =~= seq![Seq::<char>::empty()]);
        if parts.len() > 0 {
            lemma_segments_joined(parts);
        } else {
            assert(rest =~= Seq::empty());
        }
        assert(names(segments(text)) =~= parts);
        assert(is_absolute(text));
    } else if starts_in_dot(p) {
        let all = seq![dot] + parts;
        assert(comps =~= all);
        assert forall|i: int| 0 <= i < all.len() implies !(#[trigger] all[i]).contains('/') by {
            if i > 0 {
                assert(all[i] == parts[i - 1]);
            } else {
                assert(!dot.contains('/'));
            }
        }
        lemma_segments_joined(all);
        lemma_names_concat(seq![dot], parts);
        lemma_names_one(dot);
        assert(names(all) =~= parts);
        assert(segments(text)[0] == dot);
        if is_absolute(text) {
            lemma_absolute_first_segment(text);
        }
    } else if parts.len() > 0 {
        assert(comps =~= parts);
        assert(is_name(parts[0]) && !parts[0].contains('/'));
        assert(parts[0] != slash) by {
            assert(slash[0] == '/');
            assert(slash.contains('/'));
        }
        lemma_segments_joined(parts);
        if is_absolute(text) {
            lemma_absolute_first_segment(text);
        }
    } else {
        assert(comps =~= Seq::empty());
        assert(text =~= Seq::empty());
        assert(segments(text) =~= seq![Seq::<char>::empty()]);
        lemma_names_one(Seq::<char>::empty());
        assert(Seq::<char>::empty() != dot) by {
            assert(Seq::<char>::empty().len() != dot.len());
        }
    }
    assert(components(text) =~= comps);
}

/// The plainest spelling of a path. Two paths are the same exactly when these are equal.
pub fn spell(p: &str) -> (out: String)
    ensures
        out@ == spelled(components(p@)),
        components(out@) == components(p@),
{
    let comps = components_of(p);
    let mut slash = String::new();
    slash.push('/');
    assert(slash@ =~= seq!['/']);
    proof {
        lemma_spelled(p@);
    }
    let rooted = comps.len() > 0 && same(comps[0].as_str(), slash.as_str());
    if comps.len() > 0 {
        assert(views(comps@)[0] == comps@[0]@);
    }
    if rooted {
        let rest = vec_from(&comps, 1, comps.len());
        assert(views(rest@) =~= components(p@).skip(1));
        let text = join_text(&rest, slash.as_str());
        slash.concat(text.as_str())
    } else {
        join_text(&comps, slash.as_str())
    }
}

/// What stands behind the last dot of a name is its extension, where something stands before it.
pub proof fn lemma_extension(front: Seq<char>, back: Seq<char>)
    requires
        front.len() > 0,
        !front.contains('/'),
        !back.contains('/'),
        !back.contains('.'),
        back.len() > 0,
    ensures
        extension(front + seq!['.'] + back) == Some(back),
{
    let name = front + seq!['.'] + back;
    assert(!name.contains('/')) by {
        if name.contains('/') {
            let i = choose|i: int| 0 <= i < name.len() && name[i] == '/';
            if i < front.len() {
                assert(front[i] == '/');
            } else if i > front.len() {
                assert(back[i - front.len() - 1] == '/');
            }
        }
    }
    lemma_segments_one(name);
    assert(name[front.len() as int] == '.' && name.len() >= 3);
    assert(is_name(name)) by {
        assert(seq!['.'].len() == 1);
    }
    assert(seq![name].drop_last() =~= Seq::empty());
    assert(names(seq![name].drop_last()) =~= Seq::empty());
    assert(names(segments(name)) =~= seq![name]);
    assert(name != seq!['.', '.']) by {
        assert(seq!['.', '.'].len() == 2);
    }
    lemma_extension_dot(front, back);
    assert(name.skip((front.len() + 1) as int) =~= back);
}

proof fn lemma_extension_dot(front: Seq<char>, back: Seq<char>)
    requires
        front.len() > 0,
        !back.contains('.'),
    ensures
        extension_dot(front + seq!['.'] + back) == Some(front.len() as int),
    decreases back.len(),
{
    let name = front + seq!['.'] + back;
    if back.len() > 0 {
        let fewer = back.drop_last();
        assert(back.contains(back[back.len() - 1]));
        assert(!fewer.contains('.')) by {
            if fewer.contains('.') {
                let i = choose|i: int| 0 <= i < fewer.len() && fewer[i] == '.';
                assert(back[i] == '.');
            }
        }
        lemma_extension_dot(front, fewer);
        assert(name.drop_last() =~= front + seq!['.'] + fewer);
    }
}

/// A path is cut at its separators and nowhere else, and its names are the parts that are neither
/// empty nor a dot.
pub proof fn a_path_is_cut_at_its_separators(p: Seq<char>)
    ensures
        joined(segments(p), seq!['/']) == p,
        forall|i: int| 0 <= i < segments(p).len() ==> !(#[trigger] segments(p)[i]).contains('/'),
        names(segments(p)) == segments(p).filter(|s: Seq<char>| s.len() > 0 && s != seq!['.']),
        p.len() > 0 && p[0] == '/' ==> components(p) == seq![seq!['/']] + names(segments(p)),
        p.len() == 0 || (p[0] != '/' && segments(p)[0] != seq!['.']) ==> components(p) == names(
            segments(p),
        ),
        segments(p)[0] == seq!['.'] ==> components(p) == seq![seq!['.']] + names(segments(p)),
{
    lemma_join_segments(p);
    lemma_segments_plain(p);
    lemma_names_filter(segments(p));
    if p.len() > 0 && p[0] == '/' {
        lemma_absolute_first_segment(p);
    }
    if p.len() == 0 {
        assert(segments(p)[0].len() == 0);
        assert(seq!['.'].len() == 1);
    }
}

proof fn lemma_names_filter(segs: Seq<Seq<char>>)
    ensures
        names(segs) == segs.filter(|s: Seq<char>| s.len() > 0 && s != seq!['.']),
    decreases segs.len(),
{
    reveal(Seq::filter);
    if segs.len() > 0 {
        lemma_names_filter(segs.drop_last());
    } else {
        assert(names(segs) =~= segs);
    }
}

/// The name of an entry of a directory is the one that it was joined with.
pub proof fn an_entry_is_found_by_its_name(base: Seq<char>, name: Seq<char>)
    requires
        name.len() > 0,
        !name.contains('/'),
        name != seq!['.'],
        name != seq!['.', '.'],
    ensures
        file_name(join(base, name)) == Some(name),
{
    let slash = seq!['/'];
    assert(name[0] != '/');
    lemma_segments_one(name);
    lemma_names_one(name);
    if base.len() == 0 {
        assert(join(base, name) =~= name);
    } else {
        let front = if base.last() == '/' {
            base.drop_last()
        } else {
            base
        };
        assert(join(base, name) =~= front + slash + name);
        lemma_segments_concat(front, name);
        lemma_names_concat(segments(front), segments(name));
    }
}

/// A name is cut at its last dot, unless that is its first character.
pub proof fn a_name_is_cut_at_its_last_dot(front: Seq<char>, back: Seq<char>)
    requires
        !front.contains('/'),
        !back.contains('/'),
        !back.contains('.'),
        back.len() > 0,
    ensures
        front.len() > 0 ==> extension(front + seq!['.'] + back) == Some(back) && stem(
            front + seq!['.'] + back,
        ) == front,
        extension(seq!['.'] + back) is None && stem(seq!['.'] + back) == seq!['.'] + back,
        extension(back) is None && stem(back) == back,
{
    let name = front + seq!['.'] + back;
    if front.len() > 0 {
        lemma_extension(front, back);
        lemma_extension_dot(front, back);
        assert(!name.contains('/')) by {
            if name.contains('/') {
                let i = choose|i: int| 0 <= i < name.len() && name[i] == '/';
                if i < front.len() {
                    assert(front[i] == '/');
                } else if i > front.len() {
                    assert(back[i - front.len() - 1] == '/');
                }
            }
        }
        lemma_segments_one(name);
        lemma_names_one(name);
        assert(name.len() >= 3 && seq!['.', '.'].len() == 2 && seq!['.'].len() == 1);
        assert(name.take(front.len() as int) =~= front);
    }
    let hidden = seq!['.'] + back;
    assert(!hidden.contains('/')) by {
        if hidden.contains('/') {
            let i = choose|i: int| 0 <= i < hidden.len() && hidden[i] == '/';
            assert(back[i - 1] == '/');
        }
    }
    lemma_segments_one(hidden);
    lemma_names_one(hidden);
    assert(hidden[1] == back[0] && back[0] != '.');
    assert(hidden != seq!['.', '.']) by {
        assert(seq!['.', '.'][1] == '.');
    }
    assert(hidden.len() >= 2 && seq!['.'].len() == 1);
    lemma_no_dot(seq!['.'], back);
    lemma_segments_one(back);
    lemma_names_one(back);
    assert(back != seq!['.'] && back != seq!['.', '.']) by {
        assert(seq!['.'][0] == '.' && seq!['.', '.'][0] == '.');
    }
    assert(Seq::<char>::empty() + back =~= back);
    lemma_no_dot(Seq::empty(), back);
}

proof fn lemma_no_dot(front: Seq<char>, back: Seq<char>)
    requires
        front.len() <= 1,
        !back.contains('.'),
    ensures
        extension_dot(front + back) is None,
    decreases back.len(),
{
    let name = front + back;
    if name.len() > 1 {
        assert(name.last() == back[back.len() - 1]);
        assert forall|i: int| 0 <= i < back.drop_last().len() implies back.drop_last()[i] != '.' by {
            assert(back.drop_last()[i] == back[i]);
        }
        lemma_no_dot(front, back.drop_last());
        assert(name.drop_last() =~= front + back.drop_last());
    }
}

} // verus!
