//! Local paths as text: joining a name to a directory, and the last
//! component of a path. Components are separated by `/`.

use vstd::prelude::*;
use vstd::string::*;

verus! {

/// The path of `name` inside `dir`. A name that starts at the root stands
/// for itself, and so does any name inside the empty path.
pub open spec fn joined(dir: Seq<char>, name: Seq<char>) -> Seq<char> {
    if name.len() > 0 && name[0] == '/' {
        name
    } else if dir.len() == 0 {
        name
    } else if dir.last() == '/' {
        dir + name
    } else {
        dir.push('/') + name
    }
}

/// Where the last component of `path` starts: after the last separator, or
/// at the beginning if there is none.
pub open spec fn component_start(path: Seq<char>) -> int
    decreases path.len(),
{
    if path.len() == 0 || path.last() == '/' {
        path.len() as int
    } else {
        component_start(path.drop_last())
    }
}

/// The name of the entry that `path` leads to: its last component, where
/// trailing separators and trailing `.` components are passed over. A path
/// that ends in `..`, or that holds no name at all, has none.
pub open spec fn file_name(path: Seq<char>) -> Option<Seq<char>>
    decreases path.len(),
{
    if path.len() == 0 {
        None
    } else if path.last() == '/' {
        file_name(path.drop_last())
    } else {
        let start = component_start(path);
        let component = path.subrange(start, path.len() as int);
        if component == seq!['.', '.'] {
            None
        } else if component == seq!['.'] {
            if 0 < start < path.len() {
                file_name(path.subrange(0, start))
            } else {
                None
            }
        } else {
            Some(component)
        }
    }
}

/// The last component starts where a tail free of separators begins that
/// follows a separator or the beginning of the path.
proof fn lemma_component_start_found(path: Seq<char>, start: int)
    requires
        0 <= start <= path.len(),
        forall|i: int| start <= i < path.len() ==> path[i] != '/',
        start > 0 ==> path[start - 1] == '/',
    ensures
        component_start(path) == start,
    decreases path.len() - start,
{
    if start < path.len() {
        let init = path.drop_last();
        lemma_component_start_found(init, start);
    }
}

/// A name that can stand for an entry of a directory: not empty, free of
/// separators, and neither `.` nor `..`.
pub open spec fn is_plain_name(name: Seq<char>) -> bool {
    &&& name.len() > 0
    &&& forall|i: int| 0 <= i < name.len() ==> name[i] != '/'
    &&& name != seq!['.']
    &&& name != seq!['.', '.']
}

/// The entry that a plain name leads to inside a directory bears that name.
pub proof fn lemma_join_then_name(dir: Seq<char>, name: Seq<char>)
    requires
        is_plain_name(name),
    ensures
        file_name(joined(dir, name)) == Some(name),
{
    let path = joined(dir, name);
    let start = path.len() - name.len();
    assert(name[0] != '/');
    assert forall|i: int| start <= i < path.len() implies path[i] != '/' by {
        assert(path[i] == name[i - start]);
    }
    lemma_component_start_found(path, start);
    assert(path.subrange(start, path.len() as int) =~= name);
    assert(path.last() == name.last());
}

/// The path of `name` inside `dir`.
pub fn join(dir: &String, name: &String) -> (p: String)
    ensures
        p@ == joined(dir@, name@),
{
    let dir_len = dir.as_str().unicode_len();
    let name_len = name.as_str().unicode_len();
    if name_len > 0 && name.as_str().get_char(0) == '/' {
        return name.clone();
    }
    if dir_len == 0 {
        return name.clone();
    }
    let mut p = dir.clone();
    if dir.as_str().get_char(dir_len - 1) != '/' {
        proof {
            reveal_strlit("/");
        }
        p.append("/");
        assert(p@ =~= dir@.push('/'));
    }
    p.append(name.as_str());
    p
}

/// The name of the entry that `path` leads to, if it has one.
pub fn name_of(path: &String) -> (name: Option<String>)
    ensures
        match name {
            Some(n) => file_name(path@) == Some(n@),
            None => file_name(path@) is None,
        },
{
    let text = path.as_str();
    let mut end: usize = text.unicode_len();
    assert(path@.subrange(0, end as int) =~= path@);
    loop
        invariant
            text@ == path@,
            end <= path@.len(),
            file_name(path@) == file_name(path@.subrange(0, end as int)),
        decreases end,
    {
        let ghost prefix = path@.subrange(0, end as int);
        if end == 0 {
            return None;
        }
        if text.get_char(end - 1) == '/' {
            assert(prefix.drop_last() =~= path@.subrange(0, end - 1));
            end = end - 1;
            continue ;
        }
        let mut start: usize = end;
        while start > 0 && text.get_char(start - 1) != '/'
            invariant
                text@ == path@,
                start <= end <= path@.len(),
                forall|i: int| start <= i < end ==> path@[i] != '/',
            decreases start,
        {
            start = start - 1;
        }
        proof {
            lemma_component_start_found(prefix, start as int);
            assert(prefix.subrange(start as int, end as int) =~= path@.subrange(
                start as int,
                end as int,
            ));
            assert(prefix.subrange(0, start as int) =~= path@.subrange(0, start as int));
        }
        let component = text.substring_char(start, end);
        let len = end - start;
        let first_dot = text.get_char(start) == '.';
        if len == 1 && first_dot {
            assert(component@ =~= seq!['.']);
            if start == 0 {
                return None;
            }
            end = start;
        } else if len == 2 && first_dot && text.get_char(start + 1) == '.' {
            assert(component@ =~= seq!['.', '.']);
            return None;
        } else {
            assert(component@ != seq!['.', '.']) by {
                if component@ == seq!['.', '.'] {
                    assert(component@.len() == 2);
                    assert(component@[0] == '.' && component@[1] == '.');
                }
            }
            assert(component@ != seq!['.']) by {
                if component@ == seq!['.'] {
                    assert(component@.len() == 1);
                    assert(component@[0] == '.');
                }
            }
            return Some(String::from_str(component));
        }
    }
}

} // verus!
