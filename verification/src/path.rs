//! Paths: their parts, the directories on the way to a directory, and
//! the basename and the extension of a file.
use vstd::prelude::*;

verus! {

/// The character that separates the parts of a path.
pub const SEPARATOR: char = '/';

/// The character that starts the extension of a file name.
pub const DOT: char = '.';

/// The parts of a path: the runs of characters between separators, without
/// the empty ones.
///
/// A separator at the front adds nothing. Any other first character is a
/// part of its own where the path ends or a separator follows, and joins
/// the part behind it otherwise.
pub open spec fn path_parts(path: Seq<char>) -> Seq<Seq<char>>
    decreases path.len(),
{
    if path.len() == 0 {
        Seq::empty()
    } else {
        let rest = path_parts(path.skip(1));
        if path[0] == SEPARATOR {
            rest
        } else if path.len() == 1 || path[1] == SEPARATOR || rest.len() == 0 {
            seq![seq![path[0]]] + rest
        } else {
            seq![seq![path[0]] + rest[0]] + rest.skip(1)
        }
    }
}

/// A run of characters without separator is one part, also with one
/// separator behind it.
pub proof fn lemma_single_part(part: Seq<char>)
    requires
        part.len() > 0,
        forall|k: int| 0 <= k < part.len() ==> part[k] != SEPARATOR,
    ensures
        path_parts(part) == seq![part],
        path_parts(part.push(SEPARATOR)) == seq![part],
    decreases part.len(),
{
    let rest = part.skip(1);
    let closed = part.push(SEPARATOR);
    assert(closed.skip(1) =~= rest.push(SEPARATOR));
    assert(path_parts(Seq::<char>::empty()) =~= Seq::<Seq<char>>::empty());
    if rest.len() == 0 {
        assert(seq![part[0]] =~= part);
        assert(path_parts(rest) =~= Seq::<Seq<char>>::empty());
        assert(seq![SEPARATOR].skip(1) =~= Seq::<char>::empty());
        assert(rest.push(SEPARATOR) =~= seq![SEPARATOR]);
        assert(path_parts(seq![SEPARATOR]) =~= Seq::<Seq<char>>::empty());
        assert(path_parts(part) =~= seq![part]);
        assert(path_parts(closed) =~= seq![part]);
    } else {
        assert forall|k: int| 0 <= k < rest.len() implies rest[k] != SEPARATOR by {
            assert(rest[k] == part[k + 1]);
        }
        lemma_single_part(rest);
        assert(seq![part[0]] + rest =~= part);
        assert(part[1] == rest[0]);
        assert(seq![rest].skip(1) =~= Seq::<Seq<char>>::empty());
        assert(seq![rest][0] == rest);
        assert(path_parts(part) =~= seq![part]);
        assert(closed[0] == part[0]);
        assert(closed[1] == part[1]);
        assert(path_parts(closed) =~= seq![part]);
    }
}

/// Behind a separator the parts start anew: the parts of two runs of
/// characters, the first of which is empty or ends in a separator, are the
/// parts of the first followed by the parts of the second.
pub proof fn lemma_path_parts_concat(head: Seq<char>, tail: Seq<char>)
    requires
        head.len() == 0 || head.last() == SEPARATOR,
    ensures
        path_parts(head + tail) == path_parts(head) + path_parts(tail),
    decreases head.len(),
{
    if head.len() == 0 {
        assert(head + tail =~= tail);
        assert(path_parts(head) + path_parts(tail) =~= path_parts(tail));
    } else {
        let whole = head + tail;
        let inner = head.skip(1);
        assert(whole.skip(1) =~= inner + tail);
        assert(whole[0] == head[0]);
        if inner.len() == 0 {
            assert(inner + tail =~= tail);
            assert(path_parts(inner) =~= Seq::<Seq<char>>::empty());
            assert(path_parts(whole) =~= path_parts(head) + path_parts(tail));
        } else {
            assert(inner.last() == head.last());
            lemma_path_parts_concat(inner, tail);
            let a = path_parts(inner);
            let b = path_parts(tail);
            assert(whole[1] == head[1]);
            if head[0] == SEPARATOR {
            } else if head[1] == SEPARATOR {
                assert(path_parts(whole) =~= path_parts(head) + b);
            } else if a.len() == 0 {
                assert(path_parts(whole) =~= path_parts(head) + b);
                lemma_parts_of_unseparated(inner);
            } else {
                assert((a + b)[0] == a[0]);
                assert((a + b).skip(1) =~= a.skip(1) + b);
                assert(path_parts(whole) =~= path_parts(head) + b);
            }
        }
    }
}

/// A path that does not start with a separator has a part.
pub proof fn lemma_parts_of_unseparated(path: Seq<char>)
    requires
        path.len() > 0,
        path[0] != SEPARATOR,
    ensures
        path_parts(path).len() > 0,
{
}

/// function to split paths up into directory(s) and filename
pub fn split_path(path: &str) -> (parts: Vec<String>)
    ensures
        parts@.len() == path_parts(path@).len(),
        forall|i: int| 0 <= i < parts@.len() ==> (#[trigger] parts@[i])@ == path_parts(path@)[i],
{
    let mut v: Vec<String> = Vec::new();
    let n: usize = path.unicode_len();
    let mut start: usize = 0;
    let mut i: usize = 0;
    proof {
        assert(path@.take(0) =~= Seq::<char>::empty());
    }
    while i < n
        invariant
            n == path@.len(),
            start <= i <= n,
            start == 0 || path@[start - 1] == SEPARATOR,
            forall|k: int| start <= k < i ==> path@[k] != SEPARATOR,
            v@.len() == path_parts(path@.take(start as int)).len(),
            forall|j: int|
                0 <= j < v@.len() ==> (#[trigger] v@[j])@ == path_parts(path@.take(start as int))[j],
        decreases n - i,
    {
        let c: char = path.get_char(i);
        if c == SEPARATOR {
            let ghost done = path@.take(start as int);
            let ghost part = path@.subrange(start as int, i as int);
            proof {
                assert(path@.take(i + 1) =~= done + part.push(SEPARATOR));
                lemma_path_parts_concat(done, part.push(SEPARATOR));
                if start < i {
                    lemma_single_part(part);
                } else {
                    assert(part.push(SEPARATOR) =~= seq![SEPARATOR]);
                    assert(seq![SEPARATOR].skip(1) =~= Seq::<char>::empty());
                    assert(path_parts(Seq::<char>::empty()) =~= Seq::<Seq<char>>::empty());
                    assert(path_parts(seq![SEPARATOR]) =~= Seq::<Seq<char>>::empty());
                    assert(path_parts(done) + Seq::<Seq<char>>::empty() =~= path_parts(done));
                }
            }
            if start < i {
                let chunk: &str = path.substring_char(start, i);
                v.push(String::from_str(chunk));
            }
            start = i + 1;
        }
        i += 1;
    }
    let ghost done = path@.take(start as int);
    let ghost part = path@.subrange(start as int, n as int);
    proof {
        assert(path@ =~= done + part);
        lemma_path_parts_concat(done, part);
        if start < n {
            lemma_single_part(part);
        } else {
            assert(part =~= Seq::<char>::empty());
            assert(path_parts(part) =~= Seq::<Seq<char>>::empty());
            assert(path_parts(done) + Seq::<Seq<char>>::empty() =~= path_parts(done));
        }
    }
    if start < n {
        let chunk: &str = path.substring_char(start, n);
        v.push(String::from_str(chunk));
    }
    v
}

/// The path that the parts `parts` make: the parts with a separator
/// between one and the next.
pub open spec fn joined_path(parts: Seq<Seq<char>>) -> Seq<char>
    decreases parts.len(),
{
    if parts.len() == 0 {
        Seq::empty()
    } else if parts.len() == 1 {
        parts[0]
    } else {
        joined_path(parts.drop_last()) + seq![SEPARATOR] + parts.last()
    }
}

/// function to list all directories in dir_path, for the caller to create
/// those that don't exist
///
/// The directories are listed from the outermost to `dir_path` itself:
/// for each part of the path, in their order, the path of the parts up to
/// that one. So each directory is listed behind the one it lies in.
pub fn create_dirs(dir_path: &str) -> (dirs: Vec<String>)
    ensures
        dirs@.len() == path_parts(dir_path@).len(),
        forall|i: int|
            0 <= i < dirs@.len() ==> (#[trigger] dirs@[i])@ == joined_path(
                path_parts(dir_path@).take(i + 1),
            ),
{
    let parts: Vec<String> = split_path(dir_path);
    let ghost all = path_parts(dir_path@);
    let mut dirs: Vec<String> = Vec::new();
    let mut curdir: String = String::new();
    let mut i: usize = 0;
    while i < parts.len()
        invariant
            i <= parts@.len(),
            all == path_parts(dir_path@),
            parts@.len() == all.len(),
            forall|k: int| 0 <= k < parts@.len() ==> (#[trigger] parts@[k])@ == all[k],
            dirs@.len() == i,
            curdir@ == joined_path(all.take(i as int)),
            forall|k: int| 0 <= k < i ==> (#[trigger] dirs@[k])@ == joined_path(all.take(k + 1)),
        decreases parts@.len() - i,
    {
        proof {
            assert(all.take(i + 1).drop_last() =~= all.take(i as int));
            assert(all.take(i + 1).last() == all[i as int]);
            reveal_strlit("/");
            assert("/"@ =~= seq![SEPARATOR]);
            if i == 0 {
                assert(curdir@ =~= Seq::<char>::empty());
                assert(curdir@ + parts@[0]@ =~= all[0]);
            }
        }
        if i > 0 {
            curdir.append("/");
        }
        curdir.append(parts[i].as_str());
        dirs.push(curdir.clone());
        i += 1;
    }
    dirs
}

/// The number of characters of `name` before its first dot, or all of them
/// where it has none.
pub open spec fn stem_len(name: Seq<char>) -> int
    decreases name.len(),
{
    if name.len() == 0 || name[0] == DOT {
        0
    } else {
        1 + stem_len(name.skip(1))
    }
}

/// The stem lies inside the name, has no dot, and ends at a dot or at the
/// end of the name.
pub proof fn lemma_stem_len(name: Seq<char>)
    ensures
        0 <= stem_len(name) <= name.len(),
        forall|k: int| 0 <= k < stem_len(name) ==> name[k] != DOT,
        stem_len(name) < name.len() ==> name[stem_len(name)] == DOT,
    decreases name.len(),
{
    if name.len() == 0 || name[0] == DOT {
    } else {
        let rest = name.skip(1);
        lemma_stem_len(rest);
        assert forall|k: int| 0 <= k < stem_len(name) implies name[k] != DOT by {
            if k > 0 {
                assert(name[k] == rest[k - 1]);
            }
        }
    }
}

/// The first position of a dot is the length of the stem.
pub proof fn lemma_stem_len_is(name: Seq<char>, at: int)
    requires
        0 <= at <= name.len(),
        forall|k: int| 0 <= k < at ==> name[k] != DOT,
        at < name.len() ==> name[at] == DOT,
    ensures
        stem_len(name) == at,
    decreases name.len(),
{
    if at == 0 {
    } else {
        let rest = name.skip(1);
        assert forall|k: int| 0 <= k < at - 1 implies rest[k] != DOT by {
            assert(rest[k] == name[k + 1]);
        }
        lemma_stem_len_is(rest, at - 1);
    }
}

/// The last part of a path, cut in two before its first dot: the basename
/// and the extension. A path without parts has neither.
pub open spec fn basename_and_ext_of(path: Seq<char>) -> (Seq<char>, Seq<char>) {
    let parts = path_parts(path);
    if parts.len() == 0 {
        (Seq::empty(), Seq::empty())
    } else {
        let name = parts.last();
        (name.take(stem_len(name)), name.skip(stem_len(name)))
    }
}

/// function to take a path, return the basename and the extension
/// of the filename in the path. All leading directories are stripped
/// from the basename
pub fn basename_and_ext(path: &str) -> (r: (String, String))
    ensures
        (r.0@, r.1@) == basename_and_ext_of(path@),
{
    let mut parts: Vec<String> = split_path(path);
    let base_and_ext: String = match parts.pop() {
        Some(name) => name,
        None => {
            return (String::new(), String::new());
        },
    };
    let name: &str = base_and_ext.as_str();
    let n: usize = name.unicode_len();
    let mut at: usize = 0;
    while at < n && name.get_char(at) != DOT
        invariant
            n == name@.len(),
            at <= n,
            forall|k: int| 0 <= k < at ==> name@[k] != DOT,
        decreases n - at,
    {
        at += 1;
    }
    proof {
        lemma_stem_len_is(name@, at as int);
        assert(name@ == path_parts(path@).last());
        assert(name@.take(at as int) =~= name@.subrange(0, at as int));
        assert(name@.skip(at as int) =~= name@.subrange(at as int, n as int));
    }
    (String::from_str(name.substring_char(0, at)), String::from_str(name.substring_char(at, n)))
}

/// Whether `pattern` stands in `text` at `at`.
pub open spec fn occurs_at(text: Seq<char>, pattern: Seq<char>, at: int) -> bool {
    &&& 0 <= at
    &&& at + pattern.len() <= text.len()
    &&& text.subrange(at, at + pattern.len()) == pattern
}

/// Whether `prefix` is what stands in `text` before the first place where
/// `pattern` stands in it: all of `text` where `pattern` stands nowhere.
pub open spec fn is_text_before(prefix: Seq<char>, text: Seq<char>, pattern: Seq<char>) -> bool {
    &&& prefix.len() <= text.len()
    &&& prefix == text.take(prefix.len() as int)
    &&& forall|j: int| 0 <= j < prefix.len() ==> !occurs_at(text, pattern, j)
    &&& occurs_at(text, pattern, prefix.len() as int) || prefix.len() == text.len()
}

/// The characters of a text.
fn chars_of(text: &str) -> (chars: Vec<char>)
    ensures
        chars@ == text@,
{
    let n: usize = text.unicode_len();
    let mut chars: Vec<char> = Vec::new();
    let mut i: usize = 0;
    while i < n
        invariant
            n == text@.len(),
            i <= n,
            chars@ == text@.take(i as int),
        decreases n - i,
    {
        chars.push(text.get_char(i));
        i += 1;
        assert(chars@ =~= text@.take(i as int));
    }
    assert(text@.take(n as int) =~= text@);
    chars
}

/// Whether `pattern` stands in `text` at `at`.
fn stands_at(text: &Vec<char>, pattern: &Vec<char>, at: usize) -> (b: bool)
    requires
        at + pattern@.len() <= text@.len(),
    ensures
        b == occurs_at(text@, pattern@, at as int),
{
    let mut k: usize = 0;
    while k < pattern.len()
        invariant
            k <= pattern@.len(),
            at + pattern.len() <= text.len(),
            forall|j: int| 0 <= j < k ==> text@[at + j] == pattern@[j],
        decreases pattern@.len() - k,
    {
        if text[at + k] != pattern[k] {
            assert(text@.subrange(at as int, at + pattern@.len())[k as int] != pattern@[k as int]);
            return false;
        }
        k += 1;
    }
    assert(text@.subrange(at as int, at + pattern@.len()) =~= pattern@);
    true
}

/// The part of `text` before the first place where `pattern` stands in it.
pub fn text_before(text: &str, pattern: &str) -> (prefix: String)
    ensures
        is_text_before(prefix@, text@, pattern@),
{
    let t: Vec<char> = chars_of(text);
    let p: Vec<char> = chars_of(pattern);
    if p.len() > t.len() {
        assert(text@.take(text@.len() as int) =~= text@);
        return String::from_str(text);
    }
    let last: usize = t.len() - p.len();
    let mut at: usize = 0;
    loop
        invariant_except_break
            at <= last,
            forall|j: int| 0 <= j < at ==> !occurs_at(text@, pattern@, j),
        invariant
            t@ == text@,
            p@ == pattern@,
            last + p.len() == t.len(),
        ensures
            forall|j: int| 0 <= j <= last ==> !occurs_at(text@, pattern@, j),
        decreases last - at,
    {
        if stands_at(&t, &p, at) {
            let prefix: &str = text.substring_char(0, at);
            assert(text@.subrange(0, at as int) =~= text@.take(at as int));
            return String::from_str(prefix);
        }
        if at == last {
            break ;
        }
        at += 1;
    }
    assert(text@.take(text@.len() as int) =~= text@);
    String::from_str(text)
}

} // verus!
