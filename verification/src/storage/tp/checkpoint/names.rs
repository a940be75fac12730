//! The names of checkpoint files.

use vstd::prelude::*;

verus! {

/// Whether a text starts with a prefix.
pub open spec fn starts(text: Seq<char>, prefix: Seq<char>) -> bool {
    text.len() >= prefix.len() && text.subrange(0, prefix.len() as int) == prefix
}

/// The position of the last dot of a text, or -1.
pub open spec fn last_dot(text: Seq<char>) -> int
    decreases text.len(),
{
    if text.len() == 0 {
        -1
    } else if text.last() == '.' {
        text.len() - 1
    } else {
        last_dot(text.drop_last())
    }
}

/// A file's name without what stands behind its last dot. A dot at the start does not count.
pub open spec fn stem(name: Seq<char>) -> Seq<char> {
    if last_dot(name) <= 0 {
        name
    } else {
        name.subrange(0, last_dot(name))
    }
}

/// A text without a prefix, as often as it starts with it.
pub open spec fn without_prefix(text: Seq<char>, prefix: Seq<char>) -> Seq<char>
    decreases text.len(),
{
    if prefix.len() > 0 && starts(text, prefix) {
        without_prefix(text.subrange(prefix.len() as int, text.len() as int), prefix)
    } else {
        text
    }
}

/// The identifier in the name of a checkpoint's file.
pub open spec fn id_in_name(name: Seq<char>, prefix: Seq<char>) -> Seq<char> {
    without_prefix(without_prefix(stem(name), prefix), seq!['_'])
}

/// The name of a checkpoint's file.
pub open spec fn name_with_id(prefix: Seq<char>, id: Seq<char>) -> Seq<char> {
    prefix + "_"@ + id + ".bin"@
}

/// Whether a text starts with a prefix.
pub fn starts_with(text: &str, prefix: &str) -> (found: bool)
    ensures
        found == starts(text@, prefix@),
{
    let len: usize = text.unicode_len();
    let wanted: usize = prefix.unicode_len();
    if len < wanted {
        return false;
    }
    for i in 0..wanted
        invariant
            wanted == prefix@.len(),
            wanted <= text@.len(),
            forall|j: int| 0 <= j < i ==> text@[j] == prefix@[j],
    {
        if text.get_char(i) != prefix.get_char(i) {
            assert(text@.subrange(0, wanted as int)[i as int] != prefix@[i as int]);
            return false;
        }
    }
    assert(text@.subrange(0, wanted as int) =~= prefix@);
    true
}

/// A file's name without what stands behind its last dot.
fn file_stem<'a>(name: &'a str) -> (text: &'a str)
    ensures
        text@ == stem(name@),
{
    let len: usize = name.unicode_len();
    let mut end: usize = len;
    assert(name@.subrange(0, len as int) =~= name@);
    while end > 0
        invariant
            end <= len,
            len == name@.len(),
            last_dot(name@) == last_dot(name@.subrange(0, end as int)),
        decreases end,
    {
        let ghost head = name@.subrange(0, end as int);
        end = end - 1;
        if name.get_char(end) == '.' {
            assert(head.last() == '.');
            assert(last_dot(name@) == end);
            if end == 0 {
                return name;
            }
            return name.substring_char(0, end);
        }
        assert(head.drop_last() =~= name@.subrange(0, end as int));
    }
    name
}

/// A text without a prefix, as often as it starts with it.
fn trim_prefix<'a>(text: &'a str, prefix: &str) -> (rest: &'a str)
    ensures
        rest@ == without_prefix(text@, prefix@),
{
    let wanted: usize = prefix.unicode_len();
    let mut rest: &'a str = text;
    if wanted == 0 {
        return rest;
    }
    loop
        invariant
            wanted == prefix@.len(),
            wanted > 0,
            without_prefix(text@, prefix@) == without_prefix(rest@, prefix@),
        decreases rest@.len(),
    {
        if !starts_with(rest, prefix) {
            return rest;
        }
        let len: usize = rest.unicode_len();
        rest = rest.substring_char(wanted, len);
    }
}

/// The identifier in the name of a checkpoint's file.
pub fn checkpoint_id(name: &str, prefix: &str) -> (id: String)
    ensures
        id@ == id_in_name(name@, prefix@),
{
    let text = file_stem(name);
    let rest = trim_prefix(text, prefix);
    proof {
        reveal_strlit("_");
        assert("_"@ =~= seq!['_']);
    }
    trim_prefix(rest, "_").to_string()
}

/// The name of a checkpoint's file.
pub fn checkpoint_file(prefix: &str, id: &str) -> (name: String)
    ensures
        name@ == name_with_id(prefix@, id@),
{
    let mut name = prefix.to_string();
    name.append("_");
    name.append(id);
    name.append(".bin");
    name
}

/// The path of a file in a directory, with strokes between the parts. A name that is a full path
/// stands for itself.
pub open spec fn joined(dir: Seq<char>, name: Seq<char>) -> Seq<char> {
    if name.len() > 0 && name[0] == '/' {
        name
    } else if dir.len() == 0 || dir.last() == '/' {
        dir + name
    } else {
        dir + "/"@ + name
    }
}

/// The path of a file in a directory.
pub fn join_path(dir: &str, name: &str) -> (path: String)
    ensures
        path@ == joined(dir@, name@),
{
    let wanted: usize = name.unicode_len();
    if wanted > 0 && name.get_char(0) == '/' {
        return name.to_string();
    }
    let mut path = dir.to_string();
    let len: usize = dir.unicode_len();
    if len > 0 && dir.get_char(len - 1) != '/' {
        path.append("/");
    }
    path.append(name);
    path
}

/// The name of a checkpoint's file gives back the checkpoint's identifier, unless the identifier
/// starts with an underscore or the prefix can be found again before it.
pub proof fn law_name_keeps_id(prefix: Seq<char>, id: Seq<char>)
    requires
        id.len() > 0 ==> id[0] != '_',
        prefix.len() > 0 ==> !starts(seq!['_'] + id, prefix),
    ensures
        id_in_name(name_with_id(prefix, id), prefix) == id,
{
    reveal_strlit("_");
    reveal_strlit(".bin");
    let name = name_with_id(prefix, id);
    let full = prefix + seq!['_'] + id;
    let tail = seq!['_'] + id;
    assert("_"@ =~= seq!['_']);
    assert(".bin"@ =~= seq!['.', 'b', 'i', 'n']);
    assert(name =~= full + seq!['.', 'b', 'i', 'n']);
    reveal_with_fuel(last_dot, 5);
    assert(name.last() == 'n');
    let a = name.drop_last();
    assert(a.last() == 'i');
    let b = a.drop_last();
    assert(b.last() == 'b');
    let c = b.drop_last();
    assert(c.last() == '.');
    assert(last_dot(name) == full.len());
    assert(name.subrange(0, full.len() as int) =~= full);
    assert(stem(name) == full);
    if prefix.len() > 0 {
        assert(full.subrange(0, prefix.len() as int) =~= prefix);
        assert(full.subrange(prefix.len() as int, full.len() as int) =~= tail);
        assert(without_prefix(tail, prefix) == tail);
    } else {
        assert(full =~= tail);
    }
    assert(without_prefix(full, prefix) == tail);
    assert(tail.subrange(0, 1) =~= seq!['_']);
    assert(tail.subrange(1, tail.len() as int) =~= id);
    if starts(id, seq!['_']) {
        assert(id.subrange(0, 1)[0] == id[0]);
    }
    assert(without_prefix(id, seq!['_']) == id);
}

} // verus!
