//! What `set` makes of a source: the properties that reading the edited text gives.
use crate::form::edits::{
    added_text, entries, lemma_added, lemma_added_behind, lemma_added_text,
    lemma_before_added, lemma_object, lemma_read_at, lemma_removed, lemma_replaced, lemma_root,
    lemma_root_rewritten, lemma_walk, object_at, one_value, place, quoted, rewritten, unmarked,
};
use crate::form::locality::{
    lemma_members_local, lemma_name_local, lemma_reads, lemma_string_end_local, lemma_token_char,
    lemma_trivia_ends, lemma_trivia_local, reads, same_text, Read,
};
use crate::form::source::{
    added, edited, first_named, is_key_source, json5_key, key_end,
    lemma_named_has_place, lemma_node, lemma_place_of, lemma_trivia, member_before, members, named,
    node, place_of, replaced, root_node, target_node, Fault, MemberView, NodeView,
};
use vstd::prelude::*;

verus! {

/// The properties of an object, `all` of them, once one has been given a value or taken out: a new
/// one comes behind the others.
pub open spec fn changed(
    all: Seq<(Seq<char>, Seq<char>)>,
    ms: Seq<MemberView>,
    key: Seq<char>,
    value: Option<Seq<char>>,
) -> Seq<(Seq<char>, Seq<char>)> {
    if named(ms, key) {
        match value {
            Some(v) => all.update(place_of(ms, key), (key, v)),
            None => all.remove(place_of(ms, key)),
        }
    } else {
        match value {
            Some(v) => all.push((key, v)),
            None => all,
        }
    }
}

/// The text `s` has the object that is meant, without a property of that name.
pub open spec fn lacks(s: Seq<char>, object: Option<Seq<char>>, key: Seq<char>) -> bool {
    &&& target_node(s, object) is Ok
    &&& !named(target_node(s, object)->Ok_0.members->0, key)
}

/// `t` is read as `s` with one property of the object that is meant changed. Where that is an object
/// within the configuration, its other properties are read as before, and so are all other
/// properties of the configuration.
pub open spec fn edit_is_read(
    s: Seq<char>,
    t: Seq<char>,
    object: Option<Seq<char>>,
    key: Seq<char>,
    value: Option<Seq<char>>,
) -> bool {
    let n = target_node(s, object)->Ok_0;
    let m = target_node(t, object)->Ok_0;
    &&& target_node(s, object) is Ok
    &&& target_node(t, object) is Ok
    &&& entries(t, m.members->0) == changed(entries(s, n.members->0), n.members->0, key, value)
    &&& object matches Some(o) ==> {
        let outer = root_node(s)->Ok_0.members->0;
        entries(t, root_node(t)->Ok_0.members->0) == entries(s, outer).update(
            place_of(outer, o),
            (o, t.subrange(m.start, m.end)),
        )
    }
}

/// One property of an object is changed: the object is read with the change.
proof fn lemma_edited(
    s: Seq<char>,
    n: NodeView,
    key: Seq<char>,
    key_source: Seq<char>,
    value: Option<Seq<char>>,
) -> (m: NodeView)
    requires
        object_at(s, n),
        value matches Some(v) ==> one_value(v) && unmarked(v) == v,
        value is Some && !named(n.members->0, key) ==> quoted(key_source) && is_key_source(key_source, key),
    ensures
        ({
            let t = edited(s, n, key, key_source, value);
            &&& rewritten(s, t, n, m)
            &&& entries(t, m.members->0) == changed(entries(s, n.members->0), n.members->0, key, value)
        }),
{
    let ms = n.members->0;
    lemma_object(s, n);
    if named(ms, key) {
        lemma_named_has_place(ms, key);
        let i = place_of(ms, key);
        match value {
            Some(v) => lemma_replaced(s, n, i, v),
            None => lemma_removed(s, n, i),
        }
    } else {
        match value {
            Some(v) => lemma_added(s, n, key, key_source, v),
            None => n,
        }
    }
}

/// The object that a property of a whole source holds.
pub proof fn lemma_inner(s: Seq<char>, o: Seq<char>) -> (r: (int, int, Read))
    requires
        target_node(s, Some(o)) is Ok,
    ensures
        ({
            let root = root_node(s)->Ok_0;
            let outer = root.members->0;
            let n = target_node(s, Some(o))->Ok_0;
            let (i, p, x) = r;
            &&& root_node(s) is Ok
            &&& object_at(s, root)
            &&& object_at(s, n)
            &&& i == place_of(outer, o)
            &&& first_named(outer, o, i)
            &&& n.start == outer[i].value_start
            &&& n.end == outer[i].value_end
            &&& p == place(outer, root.start + 1, i)
            &&& root.start < p
            &&& reads(s, p, outer.take(i), x)
            &&& x.value.start == n.start
            &&& !named(outer.take(i), x.key)
            &&& forall|j: int| 0 <= j < i ==> (#[trigger] outer[j]).comma is Some
        }),
{
    let root = root_node(s)->Ok_0;
    let outer = root.members->0;
    lemma_root(s, root);
    lemma_object(s, root);
    lemma_named_has_place(outer, o);
    let i = place_of(outer, o);
    let (p, x) = lemma_read_at(s, root, i);
    lemma_reads(s, p, outer.take(i), x);
    lemma_node(s, x.colon + 1);
    lemma_trivia(s, x.colon + 1);
    lemma_trivia_ends(s, x.colon + 1, x.value.start);
    (i, p, x)
}

/// What an object is written as is one value.
pub proof fn lemma_object_source(t: Seq<char>, m: NodeView)
    requires
        object_at(t, m),
    ensures
        one_value(t.subrange(m.start, m.end)),
        unmarked(t.subrange(m.start, m.end)) == t.subrange(m.start, m.end),
{
    lemma_object(t, m);
    let w = t.subrange(m.start, m.end);
    assert(w[0] == '{');
    assert(w.last() == '}');
    lemma_token_char(w, 0);
    lemma_members_local(t, w, m.start + 1, Seq::empty(), Seq::empty(), -m.start);
}

/// A property of an object within the configuration is changed.
#[verifier::rlimit(60)]
#[verifier::spinoff_prover]
proof fn lemma_edited_inside(
    s: Seq<char>,
    o: Seq<char>,
    key: Seq<char>,
    key_source: Seq<char>,
    value: Option<Seq<char>>,
)
    requires
        target_node(s, Some(o)) is Ok,
        value matches Some(v) ==> one_value(v) && unmarked(v) == v,
        value is Some && lacks(s, Some(o), key) ==> quoted(key_source) && is_key_source(key_source, key),
    ensures
        edit_is_read(s, edited(s, target_node(s, Some(o))->Ok_0, key, key_source, value), Some(o), key, value),
{
    let n = target_node(s, Some(o))->Ok_0;
    let t = edited(s, n, key, key_source, value);
    let (i, p, x) = lemma_inner(s, o);
    let root = root_node(s)->Ok_0;
    let m = lemma_edited(s, n, key, key_source, value);
    lemma_object(s, root);
    lemma_object(s, n);
    lemma_object(t, m);
    lemma_object_source(t, m);
    let w = t.subrange(m.start, m.end);
    assert(member_before(root.members->0[i], root.end - 1));
    lemma_whole(s, t, n, m);
    let r = lemma_replaced(s, root, i, w);
    lemma_root_rewritten(s, t, root, r);
    lemma_still_named(s, t, root, r, i, o, w);
    lemma_token_char(t, m.start);
}

/// The text around an object that is written anew.
proof fn lemma_whole(s: Seq<char>, t: Seq<char>, n: NodeView, m: NodeView)
    requires
        object_at(s, n),
        rewritten(s, t, n, m),
    ensures
        t == replaced(s, n.start, n.end, t.subrange(m.start, m.end)),
{
    lemma_object(s, n);
    lemma_object(t, m);
    let d = m.end - n.end;
    let u = replaced(s, n.start, n.end, t.subrange(m.start, m.end));
    assert forall|i: int| 0 <= i < t.len() implies t[i] == u[i] by {
        if i < n.start {
            assert(s[i] == t[i + 0]);
        } else if i >= m.end {
            assert(s[i - d] == t[i - d + d]);
        }
    }
    assert(t =~= u);
}

/// A property that has another value is found under its name.
proof fn lemma_still_named(
    s: Seq<char>,
    t: Seq<char>,
    n: NodeView,
    r: NodeView,
    i: int,
    o: Seq<char>,
    value: Seq<char>,
)
    requires
        first_named(n.members->0, o, i),
        r.members->0.len() == n.members->0.len(),
        entries(t, r.members->0) == entries(s, n.members->0).update(i, (o, value)),
    ensures
        named(r.members->0, o),
        place_of(r.members->0, o) == i,
{
    let ms = n.members->0;
    let now = r.members->0;
    assert forall|j: int| 0 <= j < ms.len() implies (#[trigger] now[j]).key == ms[j].key by {
        assert(entries(t, now)[j].0 == entries(s, ms).update(i, (o, value))[j].0);
    }
    assert(now[i].key == o);
    assert(first_named(now, o, i));
    lemma_place_of(now, o, i);
}

/// Whatever property is changed, in the configuration or in an object within it, the edited text is
/// read with that change and no other.
pub proof fn law_edits_are_read_back(
    s: Seq<char>,
    object: Option<Seq<char>>,
    key: Seq<char>,
    key_source: Seq<char>,
    value: Option<Seq<char>>,
)
    requires
        target_node(s, object) is Ok,
        value matches Some(v) ==> one_value(v) && unmarked(v) == v,
        value is Some && lacks(s, object, key) ==> quoted(key_source) && is_key_source(key_source, key),
    ensures
        edit_is_read(s, edited(s, target_node(s, object)->Ok_0, key, key_source, value), object, key, value),
{
    match object {
        None => {
            let n = root_node(s)->Ok_0;
            lemma_root(s, n);
            let m = lemma_edited(s, n, key, key_source, value);
            lemma_root_rewritten(s, edited(s, n, key, key_source, value), n, m);
        },
        Some(o) => {
            lemma_edited_inside(s, o, key, key_source, value);
        },
    }
}

/// A property that is given a value and then taken out again leaves the properties that were there,
/// in the object that is meant and around it.
pub proof fn law_setting_is_undone(
    s: Seq<char>,
    t: Seq<char>,
    u: Seq<char>,
    object: Option<Seq<char>>,
    key: Seq<char>,
    value: Seq<char>,
)
    requires
        lacks(s, object, key),
        edit_is_read(s, t, object, key, Some(value)),
        edit_is_read(t, u, object, key, None),
    ensures
        entries(u, target_node(u, object)->Ok_0.members->0) == entries(
            s,
            target_node(s, object)->Ok_0.members->0,
        ),
        lacks(u, object, key),
        object matches Some(o) ==> forall|j: int|
            0 <= j < entries(s, root_node(s)->Ok_0.members->0).len() && j != place_of(
                root_node(s)->Ok_0.members->0,
                o,
            ) ==> #[trigger] entries(u, root_node(u)->Ok_0.members->0)[j] == entries(
                s,
                root_node(s)->Ok_0.members->0,
            )[j],
{
    let ms = target_node(s, object)->Ok_0.members->0;
    let now = target_node(t, object)->Ok_0.members->0;
    let last = target_node(u, object)->Ok_0.members->0;
    let all = entries(s, ms);
    let k = ms.len() as int;
    assert(entries(t, now) == all.push((key, value)));
    assert(entries(t, now).len() == now.len());
    assert forall|j: int| 0 <= j < k implies (#[trigger] now[j]).key != key by {
        assert(entries(t, now)[j].0 == all[j].0);
        assert(ms[j].key != key);
    }
    assert(now[k].key == key) by {
        assert(entries(t, now)[k].0 == key);
    }
    assert(first_named(now, key, k));
    lemma_place_of(now, key, k);
    assert(entries(u, last) =~= all);
    assert(entries(u, last).len() == last.len());
    if named(last, key) {
        let j = choose|j: int| 0 <= j < last.len() && #[trigger] last[j].key == key;
        assert(entries(u, last)[j].0 == all[j].0);
        assert(ms[j].key == key);
    }
    if let Some(o) = object {
        let (i, p, x) = lemma_inner(s, o);
        let (i2, p2, x2) = lemma_inner(t, o);
        let first = root_node(s)->Ok_0;
        let second = root_node(t)->Ok_0;
        let w = t.subrange(target_node(t, object)->Ok_0.start, target_node(t, object)->Ok_0.end);
        assert(entries(t, second.members->0).len() == entries(s, first.members->0).len());
        lemma_still_named(s, t, first, second, i, o, w);
    }
}

// ---------------------------------------------------------------------------------------------
// Names that cannot be read

/// An object with a new property whose name JSON5 does not read is not read either.
proof fn lemma_unreadable(
    s: Seq<char>,
    n: NodeView,
    key_source: Seq<char>,
    value: Seq<char>,
)
    requires
        object_at(s, n),
        quoted(key_source),
        json5_key(key_source) is Err,
        value.len() > 0,
    ensures
        ({
            let t = added(s, n, key_source, value);
            &&& members(t, n.start + 1, Seq::empty()) is Err
            &&& same_text(s, t, 0, n.start + 1, 0)
            &&& n.start + 1 < t.len()
        }),
{
    let (from, d) = lemma_added_text(s, n, key_source, value);
    lemma_not_read(s, n, key_source, value, added(s, n, key_source, value), from, d);
}

proof fn lemma_not_read(
    s: Seq<char>,
    n: NodeView,
    key_source: Seq<char>,
    value: Seq<char>,
    t: Seq<char>,
    from: int,
    d: int,
)
    requires
        object_at(s, n),
        quoted(key_source),
        json5_key(key_source) is Err,
        added_text(s, n, key_source, value, t, from, d),
    ensures
        members(t, n.start + 1, Seq::empty()) is Err,
        same_text(s, t, 0, n.start + 1, 0),
        n.start + 1 < t.len(),
{
    lemma_object(s, n);
    lemma_added_behind(s, n);
    assert(same_text(s, t, 0, n.start + 1, 0));
    let (seen, q) = lemma_before_added(s, t, n);
    let colon = from + key_source.len();
    assert(t[from] == key_source[0]) by {
        assert(t.subrange(from, colon)[0] == t[from]);
    }
    assert(same_text(key_source, t, 1, key_source.len() as int, from)) by {
        assert forall|i: int| 1 <= i < key_source.len() implies #[trigger] key_source[i] == t[i + from] by {
            assert(t.subrange(from, colon)[i] == t[from + i]);
        }
    }
    lemma_string_end_local(key_source, t, 1, '"', from);
    assert(key_end(t, from) == Ok::<int, Fault>(colon));
    assert(members(t, q, seen) is Err);
}

/// A source whose configuration is not read.
proof fn lemma_root_unread(s: Seq<char>, t: Seq<char>, n: NodeView)
    requires
        root_node(s) == Ok::<NodeView, Fault>(n),
        same_text(s, t, 0, n.start + 1, 0),
        n.start + 1 < t.len(),
        members(t, n.start + 1, Seq::empty()) is Err,
    ensures
        root_node(t) is Err,
{
    lemma_root(s, n);
    lemma_trivia_local(s, t, 0, n.start, 0);
    assert(s[n.start] == t[n.start + 0]);
    lemma_token_char(t, n.start);
}

/// A source with an object in it that is not read.
proof fn lemma_inner_unread(s: Seq<char>, t: Seq<char>, o: Seq<char>)
    requires
        target_node(s, Some(o)) is Ok,
        ({
            let n = target_node(s, Some(o))->Ok_0;
            &&& same_text(s, t, 0, n.start + 1, 0)
            &&& n.start + 1 < t.len()
            &&& members(t, n.start + 1, Seq::empty()) is Err
        }),
    ensures
        root_node(t) is Err,
{
    let n = target_node(s, Some(o))->Ok_0;
    let (i, p, x) = lemma_inner(s, o);
    let root = root_node(s)->Ok_0;
    let outer = root.members->0;
    let seen = outer.take(i);
    lemma_object(s, root);
    lemma_reads(s, p, seen, x);
    lemma_name_local(s, t, p, seen, seen, 0, x);
    lemma_node(s, x.colon + 1);
    lemma_trivia(s, x.colon + 1);
    lemma_trivia_local(s, t, x.colon + 1, n.start, 0);
    assert(s[n.start] == t[n.start + 0]);
    lemma_token_char(t, n.start);
    assert(node(t, x.colon + 1) is Err);
    assert(members(t, p, seen) is Err);
    assert(same_text(s, t, root.start + 1, p, 0));
    lemma_walk(s, t, root.start + 1, outer, root.end, i);
    assert(same_text(s, t, 0, root.start + 1, 0));
    lemma_root_unread(s, t, root);
}

/// A new property whose name JSON5 does not read makes a source that is not read.
pub proof fn law_unreadable_names_are_refused(
    s: Seq<char>,
    object: Option<Seq<char>>,
    key: Seq<char>,
    key_source: Seq<char>,
    value: Seq<char>,
)
    requires
        lacks(s, object, key),
        quoted(key_source),
        json5_key(key_source) is Err,
        one_value(value),
    ensures
        root_node(edited(s, target_node(s, object)->Ok_0, key, key_source, Some(value))) is Err,
{
    let n = target_node(s, object)->Ok_0;
    let t = added(s, n, key_source, value);
    match object {
        None => {
            lemma_root(s, n);
            lemma_unreadable(s, n, key_source, value);
            lemma_root_unread(s, t, n);
        },
        Some(o) => {
            let (i, p, x) = lemma_inner(s, o);
            lemma_unreadable(s, n, key_source, value);
            lemma_inner_unread(s, t, o);
        },
    }
}

} // verus!
