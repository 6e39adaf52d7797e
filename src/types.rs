//! Type usages: a base name followed by pointer levels and attributes.
//!
//! The parts after the base name are read left to right. Attributes gather in
//! a pending set; each pointer indicator closes one level, which takes the
//! pending set, and starts a new one.
use vstd::prelude::*;
use crate::ast::{ErrorKind, Location, Name, Pointer, SyntaxError, Tag, Tags, Typed, TypedName};
use crate::names::split_path;
use crate::syntax::{NodeKind, SyntaxTree};

verus! {

/// Node `c` can follow a type's base name: a pointer indicator, `mut`, or a
/// named attribute with its key (and maybe its value) as children.
pub open spec fn is_type_part(tree: &SyntaxTree, c: int) -> bool {
    ||| tree.kind(c) == NodeKind::Ptr
    ||| tree.kind(c) == NodeKind::KeyMut
    ||| tree.kind(c) == NodeKind::TagName && tree.kids(c).len() >= 1
}

/// All of `parts` can follow a type's base name.
pub open spec fn all_type_parts(tree: &SyntaxTree, parts: Seq<usize>) -> bool {
    forall|k: int| 0 <= k < parts.len() ==> is_type_part(tree, #[trigger] parts[k] as int)
}

/// The pointer levels closed by `parts`, each as (attribute nodes, pointer
/// node), and the attribute nodes still pending after the last one.
pub open spec fn chain(tree: &SyntaxTree, parts: Seq<usize>) -> (Seq<(Seq<usize>, usize)>, Seq<usize>)
    decreases parts.len(),
{
    if parts.len() == 0 {
        (seq![], seq![])
    } else {
        let (levels, pending) = chain(tree, parts.drop_last());
        let c = parts.last();
        if tree.kind(c as int) == NodeKind::Ptr {
            (levels.push((pending, c)), seq![])
        } else {
            (levels, pending.push(c))
        }
    }
}

/// The nodes of `levels` in order, each level's attributes before its pointer.
pub open spec fn flatten_levels(levels: Seq<(Seq<usize>, usize)>) -> Seq<usize>
    decreases levels.len(),
{
    if levels.len() == 0 {
        seq![]
    } else {
        flatten_levels(levels.drop_last()) + levels.last().0.push(levels.last().1)
    }
}

/// The parts after a type's base name.
pub open spec fn type_parts(tree: &SyntaxTree, i: int, named: bool) -> Seq<usize> {
    let n = tree.kids(i).len() as int;
    tree.kids(i).subrange(1, if named { n - 1 } else { n })
}

/// `tag` is what attribute node `c` says.
pub open spec fn tag_is_node(tag: Tag, tree: &SyntaxTree, file: Seq<char>, c: int) -> bool {
    &&& tag.loc.is_node(tree, file, c)
    &&& if tree.kind(c) == NodeKind::KeyMut {
        tag.key@ == "mutable"@ && tag.value@ == Seq::<char>::empty()
    } else {
        &&& tag.key@ == tree.text(tree.kids(c)[0] as int)
        &&& tag.value@ == if tree.kids(c).len() > 1 {
            tree.text(tree.kids(c)[1] as int)
        } else {
            Seq::<char>::empty()
        }
    }
}

/// `tags` holds what the attribute nodes `cs` say, in their order.
pub open spec fn tags_are(tags: Tags, tree: &SyntaxTree, file: Seq<char>, cs: Seq<usize>) -> bool {
    &&& tags.entries@.len() == cs.len()
    &&& forall|t: int|
        0 <= t < cs.len() ==> tag_is_node(#[trigger] tags.entries@[t], tree, file, cs[t] as int)
}

/// `ptr` holds the pointer levels `levels`, in their order.
pub open spec fn levels_are(
    ptr: Seq<Pointer>,
    tree: &SyntaxTree,
    file: Seq<char>,
    levels: Seq<(Seq<usize>, usize)>,
) -> bool {
    &&& ptr.len() == levels.len()
    &&& forall|j: int|
        0 <= j < levels.len() ==> {
            &&& tags_are(#[trigger] ptr[j].tags, tree, file, levels[j].0)
            &&& ptr[j].loc.is_node(tree, file, levels[j].1 as int)
        }
}

/// `t` is the type usage of node `i`: its base name is the first child, and
/// its pointer levels are those closed by `parts`.
pub open spec fn typed_is(t: Typed, tree: &SyntaxTree, file: Seq<char>, i: int, parts: Seq<usize>) -> bool {
    &&& t.loc.is_node(tree, file, i)
    &&& t.name.parts_view() == split_path(tree.text(tree.kids(i)[0] as int))
    &&& levels_are(t.ptr@, tree, file, chain(tree, parts).0)
}

/// A type node that declares a name has the right shape.
pub open spec fn named_type_ok(tree: &SyntaxTree, i: int) -> bool {
    &&& tree.kind(i) == NodeKind::NamedType
    &&& tree.kids(i).len() >= 2
    &&& tree.kind(tree.kids(i).last() as int) == NodeKind::Ident
    &&& all_type_parts(tree, type_parts(tree, i, true))
}

/// The last part of a named type node is not a name.
pub open spec fn lacks_name(tree: &SyntaxTree, i: int) -> bool {
    &&& tree.kind(i) == NodeKind::NamedType
    &&& tree.kids(i).len() >= 2
    &&& tree.kind(tree.kids(i).last() as int) != NodeKind::Ident
}

/// An anonymous type node has the right shape (it may still carry
/// attributes after its last pointer level).
pub open spec fn anon_type_shape(tree: &SyntaxTree, i: int) -> bool {
    &&& tree.kind(i) == NodeKind::AnonType
    &&& tree.kids(i).len() >= 1
    &&& all_type_parts(tree, type_parts(tree, i, false))
}

/// Attributes written after the last pointer level of an anonymous type.
pub open spec fn anon_trailing_tags(tree: &SyntaxTree, i: int) -> Seq<usize> {
    chain(tree, type_parts(tree, i, false)).1
}

/// The pointer chain closes one level per pointer indicator; taken in order,
/// the levels (each level's attributes, then its pointer) followed by the
/// pending attributes give back `parts` exactly.
pub proof fn lemma_pointer_chain(tree: &SyntaxTree, parts: Seq<usize>)
    ensures
        flatten_levels(chain(tree, parts).0) + chain(tree, parts).1 == parts,
        chain(tree, parts).0.len() == parts.filter(|c: usize| tree.kind(c as int) == NodeKind::Ptr).len(),
        forall|j: int|
            0 <= j < chain(tree, parts).0.len() ==> {
                &&& tree.kind((#[trigger] chain(tree, parts).0[j]).1 as int) == NodeKind::Ptr
                &&& forall|t: int|
                    0 <= t < chain(tree, parts).0[j].0.len() ==> tree.kind(
                        #[trigger] chain(tree, parts).0[j].0[t] as int,
                    ) != NodeKind::Ptr
            },
        forall|t: int|
            0 <= t < chain(tree, parts).1.len() ==> tree.kind(#[trigger] chain(tree, parts).1[t] as int)
                != NodeKind::Ptr,
    decreases parts.len(),
{
    reveal(Seq::filter);
    if parts.len() > 0 {
        let prev = parts.drop_last();
        lemma_pointer_chain(tree, prev);
        let (levels, pending) = chain(tree, prev);
        let c = parts.last();
        assert(prev.push(c) == parts);
        if tree.kind(c as int) == NodeKind::Ptr {
            let nl = levels.push((pending, c));
            assert(nl.drop_last() == levels);
            assert(flatten_levels(nl) == flatten_levels(levels) + pending.push(c));
            assert(flatten_levels(levels) + pending.push(c) + seq![] == (flatten_levels(levels)
                + pending).push(c));
        } else {
            assert(flatten_levels(levels) + pending.push(c) == (flatten_levels(levels)
                + pending).push(c));
        }
    }
}

/// The attribute of node `c`: `mut`, or a key with an optional value.
fn parse_tag(tree: &SyntaxTree, file: &String, c: usize) -> (r: Tag)
    requires
        tree.wf(),
        c < tree.len(),
        tree.kind(c as int) == NodeKind::KeyMut || tree.kind(c as int) == NodeKind::TagName
            && tree.kids(c as int).len() >= 1,
    ensures
        tag_is_node(r, tree, file@, c as int),
{
    let loc = Location::of_node(tree, file, c);
    if tree.kind_of(c) == NodeKind::KeyMut {
        Tag { key: "mutable".to_owned(), value: String::new(), loc }
    } else {
        let key = tree.text_of(tree.child(c, 0));
        let value = if tree.n_kids(c) > 1 {
            tree.text_of(tree.child(c, 1))
        } else {
            String::new()
        };
        Tag { key, value, loc }
    }
}

/// Reads the parts `from..to` of node `i` into pointer levels and the
/// attributes pending after the last one.
fn parse_chain(tree: &SyntaxTree, file: &String, i: usize, from: usize, to: usize) -> (r: Result<
    (Vec<Pointer>, Tags),
    SyntaxError,
>)
    requires
        tree.wf(),
        i < tree.len(),
        from <= to <= tree.kids(i as int).len(),
    ensures
        r is Ok <==> all_type_parts(tree, tree.kids(i as int).subrange(from as int, to as int)),
        r matches Ok((ptr, tags)) ==> {
            let ch = chain(tree, tree.kids(i as int).subrange(from as int, to as int));
            levels_are(ptr@, tree, file@, ch.0) && tags_are(tags, tree, file@, ch.1)
        },
        r matches Err(e) ==> e.kind == ErrorKind::Unexpected,
{
    let ghost kids = tree.kids(i as int);
    let mut ptr: Vec<Pointer> = Vec::new();
    let mut tags = Tags { entries: Vec::new() };
    let mut k = from;
    while k < to
        invariant
            tree.wf(),
            i < tree.len(),
            kids == tree.kids(i as int),
            from <= k <= to <= kids.len(),
            all_type_parts(tree, kids.subrange(from as int, k as int)),
            levels_are(ptr@, tree, file@, chain(tree, kids.subrange(from as int, k as int)).0),
            tags_are(tags, tree, file@, chain(tree, kids.subrange(from as int, k as int)).1),
        decreases to - k,
    {
        let c = tree.child(i, k);
        let ghost prev = kids.subrange(from as int, k as int);
        let ghost next = kids.subrange(from as int, k + 1);
        assert(next.drop_last() == prev);
        assert(next.last() == c);
        let kind = tree.kind_of(c);
        if kind == NodeKind::Ptr {
            let closed = tags;
            tags = Tags { entries: Vec::new() };
            ptr.push(Pointer { tags: closed, loc: Location::of_node(tree, file, c) });
        } else if kind == NodeKind::KeyMut || kind == NodeKind::TagName && tree.n_kids(c) >= 1 {
            let tag = parse_tag(tree, file, c);
            tags.entries.push(tag);
        } else {
            assert(!is_type_part(tree, kids.subrange(from as int, to as int)[k - from] as int));
            return Err(SyntaxError::unexpected(tree, file, c));
        }
        assert(all_type_parts(tree, next)) by {
            assert forall|m: int| 0 <= m < next.len() implies is_type_part(tree, #[trigger] next[m] as int) by {
                if m < prev.len() {
                    assert(next[m] == prev[m]);
                }
            }
        }
        k = k + 1;
    }
    assert(kids.subrange(from as int, k as int) == kids.subrange(from as int, to as int));
    Ok((ptr, tags))
}

/// Builds the type of a cast or a struct initializer, or a return slot: such
/// a type declares no name and may carry no attributes after its last pointer
/// level.
pub fn parse_anon_type(tree: &SyntaxTree, file: &String, i: usize) -> (r: Result<Typed, SyntaxError>)
    requires
        tree.wf(),
        i < tree.len(),
    ensures
        r is Ok <==> anon_type_shape(tree, i as int) && anon_trailing_tags(tree, i as int).len() == 0,
        r matches Ok(t) ==> typed_is(t, tree, file@, i as int, type_parts(tree, i as int, false)),
        r matches Err(e) ==> (e.kind == ErrorKind::AnonymousTags <==> anon_type_shape(
            tree,
            i as int,
        )),
        r matches Err(e) ==> e.kind == ErrorKind::AnonymousTags ==> e.loc.is_node(
            tree,
            file@,
            anon_trailing_tags(tree, i as int)[0] as int,
        ),
        r matches Err(e) ==> e.kind == ErrorKind::AnonymousTags || e.kind == ErrorKind::Unexpected,
{
    if tree.kind_of(i) != NodeKind::AnonType || tree.n_kids(i) < 1 {
        return Err(SyntaxError::unexpected(tree, file, i));
    }
    let n = tree.n_kids(i);
    let name = Name::from_text(tree.nodes[tree.child(i, 0)].text.as_str());
    let (ptr, tags) = match parse_chain(tree, file, i, 1, n) {
        Ok(x) => x,
        Err(e) => return Err(e),
    };
    if tags.entries.len() > 0 {
        return Err(SyntaxError {
            kind: ErrorKind::AnonymousTags,
            loc: tags.entries[0].loc.clone_loc(),
            message: "anonymous type cannot carry storage tags".to_owned(),
        });
    }
    Ok(Typed { name, loc: Location::of_node(tree, file, i), ptr })
}

/// Builds a type usage that declares a name: the name is the last part, and
/// the attributes after the last pointer level belong to the declaration.
pub fn parse_named_type(tree: &SyntaxTree, file: &String, i: usize) -> (r: Result<TypedName, SyntaxError>)
    requires
        tree.wf(),
        i < tree.len(),
    ensures
        r is Ok <==> named_type_ok(tree, i as int),
        r matches Ok(tn) ==> {
            let parts = type_parts(tree, i as int, true);
            &&& typed_is(tn.typed, tree, file@, i as int, parts)
            &&& tags_are(tn.tags, tree, file@, chain(tree, parts).1)
            &&& tn.name@ == tree.text(tree.kids(i as int).last() as int)
        },
        r matches Err(e) ==> (e.kind == ErrorKind::ExpectedName <==> lacks_name(tree, i as int)),
        r matches Err(e) ==> e.kind == ErrorKind::ExpectedName ==> e.loc.is_node(
            tree,
            file@,
            tree.kids(i as int).last() as int,
        ),
        r matches Err(e) ==> e.kind == ErrorKind::ExpectedName || e.kind == ErrorKind::Unexpected,
{
    if tree.kind_of(i) != NodeKind::NamedType || tree.n_kids(i) < 2 {
        return Err(SyntaxError::unexpected(tree, file, i));
    }
    let n = tree.n_kids(i);
    let last = tree.child(i, n - 1);
    if tree.kind_of(last) != NodeKind::Ident {
        return Err(SyntaxError {
            kind: ErrorKind::ExpectedName,
            loc: Location::of_node(tree, file, last),
            message: "expected a name".to_owned(),
        });
    }
    let name = Name::from_text(tree.nodes[tree.child(i, 0)].text.as_str());
    let (ptr, tags) = match parse_chain(tree, file, i, 1, n - 1) {
        Ok(x) => x,
        Err(e) => return Err(e),
    };
    Ok(TypedName {
        name: tree.text_of(last),
        typed: Typed { name, loc: Location::of_node(tree, file, i), ptr },
        tags,
    })
}

} // verus!
