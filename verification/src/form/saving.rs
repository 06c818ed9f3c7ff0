//! What a saved source says: read property by property, it is the configuration of the form.
use crate::config::{ConfigView, RestartPolicy};
use crate::env::{has_key, key_sorted, lemma_pairs_map, pairs_map, PairView};
use crate::form::edits::{entries, lemma_object, lemma_root, object_at};
use crate::form::locality::{lemma_closes, lemma_members_local, lemma_token_char, moved, moved_all};
use crate::form::readback::{changed, edit_is_read, lemma_inner, lemma_object_source};
use crate::form::source::{
    json_string, law_names_are_distinct, lemma_named_has_place, member_before, members, named, place_of,
    root_node, target_node, trivia, value_source, Fault, MemberView, NodeView, ValueView,
};
use crate::text::decimal;
use vstd::prelude::*;

verus! {

// ---------------------------------------------------------------------------------------------
// What a source says

pub type EntriesView = Seq<(Seq<char>, Seq<char>)>;

pub open spec fn has_name(e: EntriesView, key: Seq<char>) -> bool {
    exists|i: int| 0 <= i < e.len() && #[trigger] e[i].0 == key
}

pub open spec fn one_of_each(e: EntriesView) -> bool {
    forall|i: int, j: int| 0 <= i < j < e.len() ==> (#[trigger] e[i]).0 != (#[trigger] e[j]).0
}

/// Each name with the source of its value.
pub open spec fn by_name(e: EntriesView) -> Map<Seq<char>, Seq<char>>
    decreases e.len(),
{
    if e.len() == 0 {
        Map::empty()
    } else {
        by_name(e.drop_last()).insert(e.last().0, e.last().1)
    }
}

/// What the object in a source says: each property with the source of its value.
pub open spec fn told(s: Seq<char>) -> Map<Seq<char>, Seq<char>> {
    by_name(entries(s, root_node(s)->Ok_0.members->0))
}

/// What a source says is exactly this.
#[verifier::opaque]
pub open spec fn says(s: Seq<char>, p: Map<Seq<char>, Seq<char>>) -> bool {
    told(s) == p
}

proof fn lemma_by_name(e: EntriesView)
    requires
        one_of_each(e),
    ensures
        forall|k: Seq<char>| #[trigger] by_name(e).contains_key(k) <==> has_name(e, k),
        forall|i: int| 0 <= i < e.len() ==> by_name(e)[(#[trigger] e[i]).0] == e[i].1,
    decreases e.len(),
{
    if e.len() > 0 {
        let f = e.drop_last();
        let n = e.len() - 1;
        assert forall|i: int, j: int| 0 <= i < j < f.len() implies (#[trigger] f[i]).0 != (#[trigger] f[j]).0 by {
            assert(e[i].0 != e[j].0);
        }
        lemma_by_name(f);
        assert forall|k: Seq<char>| #[trigger] by_name(e).contains_key(k) <==> has_name(e, k) by {
            if has_name(f, k) {
                let i = choose|i: int| 0 <= i < f.len() && #[trigger] f[i].0 == k;
                assert(e[i].0 == k);
            }
            if has_name(e, k) {
                let i = choose|i: int| 0 <= i < e.len() && #[trigger] e[i].0 == k;
                if i < n {
                    assert(f[i].0 == k);
                }
            }
            assert(e[n].0 == e.last().0);
            assert(by_name(e).contains_key(k) <==> by_name(f).contains_key(k) || k == e.last().0);
            assert(by_name(f).contains_key(k) <==> has_name(f, k));
        }
        assert forall|i: int| 0 <= i < e.len() implies by_name(e)[(#[trigger] e[i]).0] == e[i].1 by {
            if i < n {
                assert(e[i].0 != e[n].0);
                assert(f[i] == e[i]);
            }
        }
    }
}

proof fn lemma_by_name_update(e: EntriesView, i: int, source: Seq<char>)
    requires
        one_of_each(e),
        0 <= i < e.len(),
    ensures
        by_name(e.update(i, (e[i].0, source))) == by_name(e).insert(e[i].0, source),
{
    let u = e.update(i, (e[i].0, source));
    assert forall|a: int, b: int| 0 <= a < b < u.len() implies (#[trigger] u[a]).0 != (#[trigger] u[b]).0 by {
        assert(e[a].0 != e[b].0);
    }
    lemma_by_name(e);
    lemma_by_name(u);
    let m = by_name(e).insert(e[i].0, source);
    assert forall|k: Seq<char>| by_name(u).contains_key(k) == m.contains_key(k) by {
        if has_name(e, k) {
            let j = choose|j: int| 0 <= j < e.len() && #[trigger] e[j].0 == k;
            assert(u[j].0 == k);
        }
        if has_name(u, k) {
            let j = choose|j: int| 0 <= j < u.len() && #[trigger] u[j].0 == k;
            assert(e[j].0 == k);
        }
        assert(e[i].0 == e[i].0);
    }
    assert forall|k: Seq<char>| by_name(u).contains_key(k) implies by_name(u)[k] == m[k] by {
        let j = choose|j: int| 0 <= j < u.len() && #[trigger] u[j].0 == k;
        assert(by_name(u)[u[j].0] == u[j].1);
        assert(by_name(e)[e[j].0] == e[j].1);
        if j != i {
            if j < i {
                assert(e[j].0 != e[i].0);
            } else {
                assert(e[i].0 != e[j].0);
            }
        }
    }
    assert(by_name(u) =~= m);
}

proof fn lemma_by_name_remove(e: EntriesView, i: int)
    requires
        one_of_each(e),
        0 <= i < e.len(),
    ensures
        by_name(e.remove(i)) == by_name(e).remove(e[i].0),
{
    let u = e.remove(i);
    assert forall|a: int, b: int| 0 <= a < b < u.len() implies (#[trigger] u[a]).0 != (#[trigger] u[b]).0 by {
        let x = if a < i { a } else { a + 1 };
        let y = if b < i { b } else { b + 1 };
        assert(u[a] == e[x] && u[b] == e[y]);
        assert(e[x].0 != e[y].0);
    }
    lemma_by_name(e);
    lemma_by_name(u);
    let m = by_name(e).remove(e[i].0);
    assert forall|k: Seq<char>| by_name(u).contains_key(k) == m.contains_key(k) by {
        if has_name(e, k) && k != e[i].0 {
            let j = choose|j: int| 0 <= j < e.len() && #[trigger] e[j].0 == k;
            let x = if j < i { j } else { j - 1 };
            assert(u[x].0 == k);
        }
        if has_name(u, k) {
            let x = choose|x: int| 0 <= x < u.len() && #[trigger] u[x].0 == k;
            let j = if x < i { x } else { x + 1 };
            assert(e[j].0 == k);
            if j < i {
                assert(e[j].0 != e[i].0);
            } else {
                assert(e[i].0 != e[j].0);
            }
        }
    }
    assert forall|k: Seq<char>| by_name(u).contains_key(k) implies by_name(u)[k] == m[k] by {
        let x = choose|x: int| 0 <= x < u.len() && #[trigger] u[x].0 == k;
        let j = if x < i { x } else { x + 1 };
        assert(by_name(u)[u[x].0] == u[x].1);
        assert(by_name(e)[e[j].0] == e[j].1);
    }
    assert(by_name(u) =~= m);
}

/// The properties of an object have different names.
proof fn lemma_one_of_each(s: Seq<char>, n: NodeView)
    requires
        object_at(s, n),
    ensures
        one_of_each(entries(s, n.members->0)),
        forall|k: Seq<char>| #[trigger] has_name(entries(s, n.members->0), k) <==> named(n.members->0, k),
{
    law_names_are_distinct(s, n.start + 1, Seq::empty());
    let ms = n.members->0;
    let e = entries(s, ms);
    assert forall|i: int, j: int| 0 <= i < j < e.len() implies (#[trigger] e[i]).0 != (#[trigger] e[j]).0 by {
        assert(ms[i].key != ms[j].key);
    }
    assert forall|k: Seq<char>| #[trigger] has_name(e, k) <==> named(ms, k) by {
        if has_name(e, k) {
            let i = choose|i: int| 0 <= i < e.len() && #[trigger] e[i].0 == k;
            assert(ms[i].key == k);
        }
        if named(ms, k) {
            let i = choose|i: int| 0 <= i < ms.len() && #[trigger] ms[i].key == k;
            assert(e[i].0 == k);
        }
    }
}

/// The properties after a change, by their names.
proof fn lemma_changed(s: Seq<char>, n: NodeView, key: Seq<char>, value: Option<Seq<char>>)
    requires
        object_at(s, n),
    ensures
        ({
            let e = entries(s, n.members->0);
            by_name(changed(e, n.members->0, key, value)) == (match value {
                Some(v) => by_name(e).insert(key, v),
                None => by_name(e).remove(key),
            })
        }),
{
    let ms = n.members->0;
    let e = entries(s, ms);
    lemma_one_of_each(s, n);
    lemma_by_name(e);
    if named(ms, key) {
        lemma_named_has_place(ms, key);
        let i = place_of(ms, key);
        assert(e[i].0 == key);
        match value {
            Some(v) => lemma_by_name_update(e, i, v),
            None => lemma_by_name_remove(e, i),
        }
    } else {
        assert(!has_name(e, key));
        match value {
            Some(v) => {
                assert(e.push((key, v)).drop_last() =~= e);
            },
            None => {
                assert(by_name(e).remove(key) =~= by_name(e));
            },
        }
    }
}

/// An object says by itself what it says within a source.
proof fn lemma_inside(t: Seq<char>, m: NodeView)
    requires
        object_at(t, m),
    ensures
        ({
            let w = t.subrange(m.start, m.end);
            &&& root_node(w) is Ok
            &&& told(w) == by_name(entries(t, m.members->0))
        }),
{
    lemma_object(t, m);
    let w = t.subrange(m.start, m.end);
    let ms = m.members->0;
    assert(w[0] == '{');
    lemma_token_char(w, 0);
    lemma_members_local(t, w, m.start + 1, Seq::empty(), Seq::empty(), -m.start);
    let now = moved_all(ms, -m.start);
    assert(Seq::<MemberView>::empty() + moved_all(ms.skip(0), -m.start) =~= now);
    assert(members(w, 1, Seq::empty()) == Ok::<(Seq<MemberView>, int), Fault>((now, w.len() as int)));
    assert(trivia(w, w.len() as int) == Ok::<int, Fault>(w.len() as int));
    assert(root_node(w)->Ok_0.members->0 == now);
    assert forall|i: int| 0 <= i < ms.len() implies #[trigger] entries(w, now)[i] == entries(t, ms)[i] by {
        assert(member_before(ms[i], m.end - 1));
        assert(now[i] == moved(ms[i], -m.start));
        lemma_place_in_object(t, m, i);
        let a = ms[i].value_start;
        let b = ms[i].value_end;
        assert(w.subrange(a - m.start, b - m.start) =~= t.subrange(a, b));
    }
    assert(entries(w, now) =~= entries(t, ms));
}

/// A property stands behind the opening brace.
proof fn lemma_place_in_object(t: Seq<char>, m: NodeView, i: int)
    requires
        object_at(t, m),
        0 <= i < m.members->0.len(),
    ensures
        m.start < m.members->0[i].value_start <= m.members->0[i].value_end < m.end,
{
    lemma_object(t, m);
    assert(member_before(m.members->0[i], m.end - 1));
    let (p, x) = crate::form::edits::lemma_read_at(t, m, i);
}

/// An edit of the configuration changes what one property says, and no other.
pub proof fn law_an_edit_changes_one_property(s: Seq<char>, t: Seq<char>, key: Seq<char>, value: Option<Seq<char>>)
    requires
        edit_is_read(s, t, None, key, value),
    ensures
        value matches Some(v) ==> told(t) == told(s).insert(key, v),
        value is None ==> told(t) == told(s).remove(key),
{
    lemma_root(s, root_node(s)->Ok_0);
    lemma_changed(s, root_node(s)->Ok_0, key, value);
}

/// An edit within an object changes what one of its properties says, and nothing else in it or
/// around it.
pub proof fn law_an_inner_edit_changes_one_property(
    s: Seq<char>,
    t: Seq<char>,
    object: Seq<char>,
    key: Seq<char>,
    value: Option<Seq<char>>,
)
    requires
        edit_is_read(s, t, Some(object), key, value),
    ensures
        told(s).contains_key(object),
        told(t).contains_key(object),
        told(t).remove(object) == told(s).remove(object),
        value matches Some(v) ==> told(told(t)[object]) == told(told(s)[object]).insert(key, v),
        value is None ==> told(told(t)[object]) == told(told(s)[object]).remove(key),
{
    let n = target_node(s, Some(object))->Ok_0;
    let m = target_node(t, Some(object))->Ok_0;
    let root = root_node(s)->Ok_0;
    let outer = root.members->0;
    let (i, p, x) = lemma_inner(s, object);
    let (i2, p2, x2) = lemma_inner(t, object);
    lemma_object(s, n);
    lemma_object(t, m);
    lemma_object_source(s, n);
    lemma_object_source(t, m);
    lemma_inside(s, n);
    lemma_inside(t, m);
    lemma_one_of_each(s, root);
    let e = entries(s, outer);
    lemma_by_name(e);
    assert(e[i] == (object, s.subrange(n.start, n.end)));
    assert(told(s)[object] == s.subrange(n.start, n.end));
    let w = t.subrange(m.start, m.end);
    lemma_by_name_update(e, i, w);
    assert(told(t) == told(s).insert(object, w));
    assert(told(t).remove(object) =~= told(s).remove(object));
    lemma_changed(s, n, key, value);
}

/// An empty object says nothing.
pub proof fn lemma_nothing_told()
    ensures
        told("{}"@) == Map::<Seq<char>, Seq<char>>::empty(),
{
    reveal_strlit("{}");
    let s = "{}"@;
    lemma_token_char(s, 0);
    lemma_token_char(s, 1);
    lemma_closes(s, 1, 1, Seq::empty());
    assert(trivia(s, 2) == Ok::<int, Fault>(2int));
    assert(root_node(s)->Ok_0.members->0 =~= Seq::<MemberView>::empty());
    assert(entries(s, Seq::empty()) =~= Seq::empty());
}

/// A source that mentions a property.
pub proof fn lemma_told_names(s: Seq<char>)
    requires
        root_node(s) is Ok,
    ensures
        forall|k: Seq<char>|
            #[trigger] told(s).contains_key(k) <==> named(root_node(s)->Ok_0.members->0, k),
{
    let n = root_node(s)->Ok_0;
    lemma_root(s, n);
    lemma_one_of_each(s, n);
    lemma_by_name(entries(s, n.members->0));
    assert forall|k: Seq<char>| #[trigger] told(s).contains_key(k) <==> named(n.members->0, k) by {
        assert(has_name(entries(s, n.members->0), k) <==> named(n.members->0, k));
    }
}

// ---------------------------------------------------------------------------------------------
// A configuration, as it is read

/// What the sources of values mean, to a reader that knows JSON: the two truth values, nothing,
/// texts and numbers mean what they are.
pub open spec fn knows_json(m: spec_fn(Seq<char>) -> ValueView) -> bool {
    &&& m("true"@) == ValueView::Flag(true)
    &&& m("false"@) == ValueView::Flag(false)
    &&& m("null"@) == ValueView::Null
    &&& forall|t: Seq<char>| m(#[trigger] json_string(t)) == ValueView::Text(t)
    &&& forall|n: u64| m(#[trigger] decimal(n as nat)) == ValueView::Number(n)
}

/// What a property means to a reader, where it is there.
pub open spec fn meant(p: Map<Seq<char>, Seq<char>>, m: spec_fn(Seq<char>) -> ValueView, key: Seq<char>) -> Option<
    ValueView,
> {
    if p.contains_key(key) {
        Some(m(p[key]))
    } else {
        None
    }
}

pub open spec fn policy_word(p: RestartPolicy) -> Seq<char> {
    match p {
        RestartPolicy::Never => "never"@,
        RestartPolicy::OnFailure => "on-failure"@,
        RestartPolicy::Always => "always"@,
    }
}

/// The variables that an object says.
pub open spec fn env_read(p: Map<Seq<char>, Seq<char>>, m: spec_fn(Seq<char>) -> ValueView, env: Seq<PairView>) -> bool {
    &&& forall|k: Seq<char>| #[trigger] p.contains_key(k) <==> has_key(env, k)
    &&& forall|i: int| 0 <= i < env.len() ==> m(p[(#[trigger] env[i]).0]) == ValueView::Text(env[i].1)
}

/// The fields that the properties say, each with its default where nothing says it.
pub open spec fn fields_read(p: Map<Seq<char>, Seq<char>>, m: spec_fn(Seq<char>) -> ValueView, c: ConfigView) -> bool {
    &&& match meant(p, m, "name"@) {
        Some(v) => v == ValueView::Text(c.name),
        None => c.name.len() == 0,
    }
    &&& match meant(p, m, "command"@) {
        Some(v) => v == ValueView::Text(c.command),
        None => c.command.len() == 0,
    }
    &&& match meant(p, m, "cwd"@) {
        Some(ValueView::Text(d)) => c.cwd == Some(d),
        Some(ValueView::Null) => c.cwd is None,
        Some(_) => false,
        None => c.cwd is None,
    }
    &&& match meant(p, m, "tty"@) {
        Some(v) => v == ValueView::Flag(c.tty),
        None => c.tty,
    }
    &&& match meant(p, m, "syncRowsCols"@) {
        Some(v) => v == ValueView::Flag(c.sync_rows_cols),
        None => c.sync_rows_cols,
    }
    &&& match meant(p, m, "restart"@) {
        Some(v) => v == ValueView::Text(policy_word(c.restart)),
        None => c.restart is Never,
    }
    &&& match meant(p, m, "persist_logs"@) {
        Some(v) => v == ValueView::Flag(c.persist_logs),
        None => !c.persist_logs,
    }
    &&& match meant(p, m, "log_max_bytes"@) {
        Some(v) => v == ValueView::Number(c.log_max_bytes),
        None => c.log_max_bytes == 10_485_760,
    }
    &&& match meant(p, m, "log_max_files"@) {
        Some(v) => v == ValueView::Number(c.log_max_files as u64),
        None => c.log_max_files == 3,
    }
}

/// A source says that configuration: every property that it mentions says its field, and a field
/// that it does not mention has its default.
pub open spec fn config_read(s: Seq<char>, m: spec_fn(Seq<char>) -> ValueView, c: ConfigView) -> bool {
    &&& fields_read(told(s), m, c)
    &&& if told(s).contains_key("env"@) {
        env_read(told(told(s)["env"@]), m, c.env)
    } else {
        c.env.len() == 0
    }
}

/// A property that the form has no field for.
pub open spec fn foreign(key: Seq<char>) -> bool {
    &&& key != "name"@ && key != "command"@ && key != "cwd"@ && key != "tty"@ && key != "syncRowsCols"@
    &&& key != "restart"@ && key != "persist_logs"@ && key != "log_max_bytes"@ && key != "log_max_files"@
    &&& key != "env"@
}

/// Both sources say the same of a property, or neither mentions it.
pub open spec fn same_property(s: Seq<char>, t: Seq<char>, key: Seq<char>) -> bool {
    told(s).contains_key(key) == told(t).contains_key(key) && (told(s).contains_key(key) ==> told(s)[key]
        == told(t)[key])
}

/// `t` is what a source `s` that said `b` becomes when it is to say `a`: whoever knows JSON reads
/// it as `a`; what the form has no field for says what it said, and so does every field that
/// stays as it was.
pub open spec fn saved_as(s: Seq<char>, b: ConfigView, a: ConfigView, t: Seq<char>) -> bool {
    &&& forall|m: spec_fn(Seq<char>) -> ValueView|
        knows_json(m) && #[trigger] config_read(s, m, b) ==> config_read(t, m, a)
    &&& forall|k: Seq<char>| foreign(k) ==> #[trigger] same_property(s, t, k)
    &&& a.name == b.name ==> same_property(s, t, "name"@)
    &&& a.command == b.command ==> same_property(s, t, "command"@)
    &&& a.cwd == b.cwd ==> same_property(s, t, "cwd"@)
    &&& a.tty == b.tty ==> same_property(s, t, "tty"@)
    &&& a.sync_rows_cols == b.sync_rows_cols ==> same_property(s, t, "syncRowsCols"@)
    &&& a.restart == b.restart ==> same_property(s, t, "restart"@)
    &&& a.persist_logs == b.persist_logs ==> same_property(s, t, "persist_logs"@)
    &&& a.log_max_bytes == b.log_max_bytes ==> same_property(s, t, "log_max_bytes"@)
    &&& a.log_max_files == b.log_max_files ==> same_property(s, t, "log_max_files"@)
    &&& a.env == b.env ==> same_property(s, t, "env"@)
}

// ---------------------------------------------------------------------------------------------
// How saving gets there

#[verifier::opaque]
pub open spec fn written(p: Map<Seq<char>, Seq<char>>, differs: bool, key: Seq<char>, value: ValueView) -> Map<
    Seq<char>,
    Seq<char>,
> {
    if differs {
        p.insert(key, value_source(value))
    } else {
        p
    }
}

pub open spec fn cwd_value(cwd: Option<Seq<char>>) -> ValueView {
    match cwd {
        Some(d) => ValueView::Text(d),
        None => ValueView::Null,
    }
}

/// What is said once the fields are written.
pub open spec fn fields_written(p: Map<Seq<char>, Seq<char>>, b: ConfigView, a: ConfigView) -> Map<
    Seq<char>,
    Seq<char>,
> {
    let p = written(p, b.name != a.name, "name"@, ValueView::Text(a.name));
    let p = written(p, b.command != a.command, "command"@, ValueView::Text(a.command));
    let p = written(p, b.cwd != a.cwd, "cwd"@, cwd_value(a.cwd));
    let p = written(p, b.tty != a.tty, "tty"@, ValueView::Flag(a.tty));
    let p = written(
        p,
        b.sync_rows_cols != a.sync_rows_cols,
        "syncRowsCols"@,
        ValueView::Flag(a.sync_rows_cols),
    );
    let p = written(p, b.restart != a.restart, "restart"@, ValueView::Text(policy_word(a.restart)));
    let p = written(p, b.persist_logs != a.persist_logs, "persist_logs"@, ValueView::Flag(a.persist_logs));
    let p = written(p, b.log_max_bytes != a.log_max_bytes, "log_max_bytes"@, ValueView::Number(a.log_max_bytes));
    written(
        p,
        b.log_max_files != a.log_max_files,
        "log_max_files"@,
        ValueView::Number(a.log_max_files as u64),
    )
}

/// The variables without those of the first `n` in `b` that `a` no longer has.
pub open spec fn vars_removed(p: Map<Seq<char>, Seq<char>>, b: Seq<PairView>, a: Seq<PairView>, n: int) -> Map<
    Seq<char>,
    Seq<char>,
>
    decreases n,
{
    if n <= 0 {
        p
    } else {
        let q = vars_removed(p, b, a, n - 1);
        if has_key(a, b[n - 1].0) {
            q
        } else {
            q.remove(b[n - 1].0)
        }
    }
}

/// The variables with those of the first `n` in `a` that `b` does not give the same value.
pub open spec fn vars_written(p: Map<Seq<char>, Seq<char>>, b: Seq<PairView>, a: Seq<PairView>, n: int) -> Map<
    Seq<char>,
    Seq<char>,
>
    decreases n,
{
    if n <= 0 {
        p
    } else {
        let q = vars_written(p, b, a, n - 1);
        if has_key(b, a[n - 1].0) && pairs_map(b)[a[n - 1].0] == a[n - 1].1 {
            q
        } else {
            q.insert(a[n - 1].0, json_string(a[n - 1].1))
        }
    }
}

/// The names of the fields differ.
proof fn lemma_field_names()
    ensures
        "name"@ != "command"@ && "name"@ != "cwd"@ && "name"@ != "tty"@ && "name"@ != "syncRowsCols"@,
        "name"@ != "restart"@ && "name"@ != "persist_logs"@ && "name"@ != "log_max_bytes"@ && "name"@
            != "log_max_files"@ && "name"@ != "env"@,
        "command"@ != "cwd"@ && "command"@ != "tty"@ && "command"@ != "syncRowsCols"@ && "command"@ != "restart"@,
        "command"@ != "persist_logs"@ && "command"@ != "log_max_bytes"@ && "command"@ != "log_max_files"@
            && "command"@ != "env"@,
        "cwd"@ != "tty"@ && "cwd"@ != "syncRowsCols"@ && "cwd"@ != "restart"@ && "cwd"@ != "persist_logs"@,
        "cwd"@ != "log_max_bytes"@ && "cwd"@ != "log_max_files"@ && "cwd"@ != "env"@,
        "tty"@ != "syncRowsCols"@ && "tty"@ != "restart"@ && "tty"@ != "persist_logs"@ && "tty"@
            != "log_max_bytes"@ && "tty"@ != "log_max_files"@ && "tty"@ != "env"@,
        "syncRowsCols"@ != "restart"@ && "syncRowsCols"@ != "persist_logs"@ && "syncRowsCols"@
            != "log_max_bytes"@ && "syncRowsCols"@ != "log_max_files"@ && "syncRowsCols"@ != "env"@,
        "restart"@ != "persist_logs"@ && "restart"@ != "log_max_bytes"@ && "restart"@ != "log_max_files"@
            && "restart"@ != "env"@,
        "persist_logs"@ != "log_max_bytes"@ && "persist_logs"@ != "log_max_files"@ && "persist_logs"@ != "env"@,
        "log_max_bytes"@ != "log_max_files"@ && "log_max_bytes"@ != "env"@,
        "log_max_files"@ != "env"@,
{
    reveal_strlit("name");
    reveal_strlit("command");
    reveal_strlit("cwd");
    reveal_strlit("tty");
    reveal_strlit("syncRowsCols");
    reveal_strlit("restart");
    reveal_strlit("persist_logs");
    reveal_strlit("log_max_bytes");
    reveal_strlit("log_max_files");
    reveal_strlit("env");
    assert("command"@[0] == 'c' && "restart"@[0] == 'r');
    assert("name"@.len() == 4 && "env"@.len() == 3 && "cwd"@.len() == 3 && "tty"@.len() == 3);
    assert("command"@.len() == 7 && "restart"@.len() == 7);
    assert("syncRowsCols"@.len() == 12 && "persist_logs"@.len() == 12);
    assert("log_max_bytes"@.len() == 13 && "log_max_files"@.len() == 13);
    assert("cwd"@[0] == 'c' && "tty"@[0] == 't' && "env"@[0] == 'e');
    assert("syncRowsCols"@[0] == 's' && "persist_logs"@[0] == 'p');
    assert("log_max_bytes"@[8] == 'b' && "log_max_files"@[8] == 'f');
}

proof fn lemma_vars_removed(p: Map<Seq<char>, Seq<char>>, b: Seq<PairView>, a: Seq<PairView>, n: int, k: Seq<char>)
    requires
        0 <= n <= b.len(),
    ensures
        ({
            let gone = exists|j: int| 0 <= j < n && (#[trigger] b[j]).0 == k && !has_key(a, k);
            &&& vars_removed(p, b, a, n).contains_key(k) <==> p.contains_key(k) && !gone
            &&& vars_removed(p, b, a, n).contains_key(k) ==> vars_removed(p, b, a, n)[k] == p[k]
        }),
    decreases n,
{
    if n > 0 {
        lemma_vars_removed(p, b, a, n - 1, k);
        if exists|j: int| 0 <= j < n - 1 && (#[trigger] b[j]).0 == k && !has_key(a, k) {
            let j = choose|j: int| 0 <= j < n - 1 && (#[trigger] b[j]).0 == k && !has_key(a, k);
            assert(0 <= j < n && b[j].0 == k);
        }
        assert(b[n - 1].0 == b[n - 1].0);
    }
}

proof fn lemma_vars_written(p: Map<Seq<char>, Seq<char>>, b: Seq<PairView>, a: Seq<PairView>, n: int, j: int)
    requires
        0 <= n <= a.len(),
        0 <= j < a.len(),
        key_sorted(a),
    ensures
        ({
            let same = has_key(b, a[j].0) && pairs_map(b)[a[j].0] == a[j].1;
            let q = vars_written(p, b, a, n);
            &&& j < n && !same ==> q.contains_key(a[j].0) && q[a[j].0] == json_string(a[j].1)
            &&& j >= n || same ==> q.contains_key(a[j].0) == p.contains_key(a[j].0) && q[a[j].0] == p[a[j].0]
        }),
    decreases n,
{
    if n > 0 {
        lemma_vars_written(p, b, a, n - 1, j);
        if j != n - 1 {
            lemma_keys_differ(a, j, n - 1);
        }
    }
}

proof fn lemma_keys_differ(a: Seq<PairView>, i: int, j: int)
    requires
        key_sorted(a),
        0 <= i < a.len(),
        0 <= j < a.len(),
        i != j,
    ensures
        a[i].0 != a[j].0,
{
    crate::text::lemma_text_lt_irreflexive(a[i].0);
}

proof fn lemma_vars_foreign(p: Map<Seq<char>, Seq<char>>, b: Seq<PairView>, a: Seq<PairView>, n: int, k: Seq<char>)
    requires
        0 <= n <= a.len(),
        !has_key(a, k),
    ensures
        vars_written(p, b, a, n).contains_key(k) == p.contains_key(k),
    decreases n,
{
    if n > 0 {
        lemma_vars_foreign(p, b, a, n - 1, k);
        assert(a[n - 1].0 != k);
    }
}

/// The variables that were said as `b` are said as `a` once they have been changed.
proof fn lemma_env_saved(
    p: Map<Seq<char>, Seq<char>>,
    m: spec_fn(Seq<char>) -> ValueView,
    b: Seq<PairView>,
    a: Seq<PairView>,
)
    requires
        knows_json(m),
        key_sorted(a),
        key_sorted(b),
        env_read(p, m, b),
    ensures
        env_read(vars_written(vars_removed(p, b, a, b.len() as int), b, a, a.len() as int), m, a),
{
    let q = vars_removed(p, b, a, b.len() as int);
    let r = vars_written(q, b, a, a.len() as int);
    assert forall|j: int| 0 <= j < a.len() implies r.contains_key((#[trigger] a[j]).0) && m(r[a[j].0])
        == ValueView::Text(a[j].1) by {
        let k = a[j].0;
        lemma_vars_written(q, b, a, a.len() as int, j);
        lemma_vars_removed(p, b, a, b.len() as int, k);
        assert(has_key(a, k));
        lemma_pairs_map(b, k);
        if has_key(b, k) {
            let i = choose|i: int| 0 <= i < b.len() && #[trigger] b[i].0 == k;
            assert(m(p[b[i].0]) == ValueView::Text(b[i].1));
            assert(p.contains_key(k));
        }
    }
    assert forall|k: Seq<char>| #[trigger] r.contains_key(k) <==> has_key(a, k) by {
        if has_key(a, k) {
            let j = choose|j: int| 0 <= j < a.len() && #[trigger] a[j].0 == k;
            assert(r.contains_key(a[j].0));
        } else {
            lemma_vars_foreign(q, b, a, a.len() as int, k);
            lemma_vars_removed(p, b, a, b.len() as int, k);
            if p.contains_key(k) {
                let i = choose|i: int| 0 <= i < b.len() && #[trigger] b[i].0 == k;
                assert(b[i].0 == k && !has_key(a, k));
            }
        }
    }
}

/// What is saved is the configuration of the form: a source that said what the file said, with the
/// fields written that differ and, where they differ, the variables, says what the form says.
pub proof fn law_saving_says_what_the_form_says(s: Seq<char>, b: ConfigView, a: ConfigView, t: Seq<char>)
    requires
        key_sorted(a.env),
        key_sorted(b.env),
        a.env == b.env ==> told(t) == fields_written(told(s), b, a),
        a.env != b.env ==> {
            let p = fields_written(told(s), b, a);
            let vars = if p.contains_key("env"@) {
                told(p["env"@])
            } else {
                Map::empty()
            };
            &&& told(t).contains_key("env"@)
            &&& told(t).remove("env"@) == p.remove("env"@)
            &&& told(told(t)["env"@]) == vars_written(
                vars_removed(vars, b.env, a.env, b.env.len() as int),
                b.env,
                a.env,
                a.env.len() as int,
            )
        },
    ensures
        saved_as(s, b, a, t),
{
    lemma_field_names();
    let p = fields_written(told(s), b, a);
    lemma_fields_kept(told(s), b, a);
    assert forall|k: Seq<char>| k != "env"@ || a.env == b.env implies #[trigger] agree(told(t), p, k) by {
        if a.env != b.env {
            assert(told(t).remove("env"@).contains_key(k) == p.remove("env"@).contains_key(k));
            assert(told(t).contains_key(k) == told(t).remove("env"@).contains_key(k));
            assert(p.contains_key(k) == p.remove("env"@).contains_key(k));
            if p.contains_key(k) {
                assert(told(t)[k] == told(t).remove("env"@)[k]);
                assert(p[k] == p.remove("env"@)[k]);
            }
        }
    }
    assert forall|m: spec_fn(Seq<char>) -> ValueView| knows_json(m) && #[trigger] config_read(s, m, b) implies config_read(
        t,
        m,
        a,
    ) by {
        lemma_fields_said(told(s), b, a, m);
        lemma_fields_agree(told(t), p, m, a);
        assert(agree(p, told(s), "env"@));
        if a.env != b.env {
            let vars = if p.contains_key("env"@) {
                told(p["env"@])
            } else {
                Map::empty()
            };
            if !p.contains_key("env"@) {
                assert(b.env.len() == 0);
                assert forall|k: Seq<char>| #[trigger] vars.contains_key(k) <==> has_key(b.env, k) by {}
            }
            assert(env_read(vars, m, b.env));
            lemma_env_saved(vars, m, b.env, a.env);
        }
    }
    assert forall|k: Seq<char>| foreign(k) implies #[trigger] same_property(s, t, k) by {
        assert(agree(told(t), p, k));
        assert(agree(p, told(s), k));
    }
    assert(agree(told(t), p, "name"@) && agree(told(t), p, "command"@) && agree(told(t), p, "cwd"@));
    assert(agree(told(t), p, "tty"@) && agree(told(t), p, "syncRowsCols"@) && agree(told(t), p, "restart"@));
    assert(agree(told(t), p, "persist_logs"@) && agree(told(t), p, "log_max_bytes"@));
    assert(agree(told(t), p, "log_max_files"@));
    assert(a.env == b.env ==> agree(told(t), p, "env"@));
}

spec fn agree(p: Map<Seq<char>, Seq<char>>, q: Map<Seq<char>, Seq<char>>, k: Seq<char>) -> bool {
    p.contains_key(k) == q.contains_key(k) && (p.contains_key(k) ==> p[k] == q[k])
}

/// What is read depends on the fields alone.
proof fn lemma_fields_agree(
    p: Map<Seq<char>, Seq<char>>,
    q: Map<Seq<char>, Seq<char>>,
    m: spec_fn(Seq<char>) -> ValueView,
    c: ConfigView,
)
    requires
        fields_read(q, m, c),
        forall|k: Seq<char>| k != "env"@ ==> #[trigger] agree(p, q, k),
    ensures
        fields_read(p, m, c),
{
    lemma_field_names();
    assert(agree(p, q, "name"@) && agree(p, q, "command"@) && agree(p, q, "cwd"@) && agree(p, q, "tty"@));
    assert(agree(p, q, "syncRowsCols"@) && agree(p, q, "restart"@) && agree(p, q, "persist_logs"@));
    assert(agree(p, q, "log_max_bytes"@) && agree(p, q, "log_max_files"@));
}

/// The fields that stay, and what is no field, say what they said.
proof fn lemma_fields_kept(p: Map<Seq<char>, Seq<char>>, b: ConfigView, a: ConfigView)
    ensures
        ({
            let q = fields_written(p, b, a);
            &&& forall|k: Seq<char>| foreign(k) ==> #[trigger] agree(q, p, k)
            &&& agree(q, p, "env"@)
            &&& a.name == b.name ==> agree(q, p, "name"@)
            &&& a.command == b.command ==> agree(q, p, "command"@)
            &&& a.cwd == b.cwd ==> agree(q, p, "cwd"@)
            &&& a.tty == b.tty ==> agree(q, p, "tty"@)
            &&& a.sync_rows_cols == b.sync_rows_cols ==> agree(q, p, "syncRowsCols"@)
            &&& a.restart == b.restart ==> agree(q, p, "restart"@)
            &&& a.persist_logs == b.persist_logs ==> agree(q, p, "persist_logs"@)
            &&& a.log_max_bytes == b.log_max_bytes ==> agree(q, p, "log_max_bytes"@)
            &&& a.log_max_files == b.log_max_files ==> agree(q, p, "log_max_files"@)
        }),
{
    lemma_field_names();
    reveal(written);
}

/// The fields say what the form says.
#[verifier::rlimit(60)]
#[verifier::spinoff_prover]
proof fn lemma_fields_said(
    p: Map<Seq<char>, Seq<char>>,
    b: ConfigView,
    a: ConfigView,
    m: spec_fn(Seq<char>) -> ValueView,
)
    requires
        knows_json(m),
        fields_read(p, m, b),
    ensures
        fields_read(fields_written(p, b, a), m, a),
{
    lemma_field_names();
    reveal(written);
    lemma_fields_kept(p, b, a);
    let q = fields_written(p, b, a);
    assert(b.name != a.name ==> meant(q, m, "name"@) == Some(ValueView::Text(a.name)));
    assert(b.command != a.command ==> meant(q, m, "command"@) == Some(ValueView::Text(a.command)));
    assert(b.cwd != a.cwd ==> meant(q, m, "cwd"@) == Some(cwd_value(a.cwd)));
    assert(b.tty != a.tty ==> meant(q, m, "tty"@) == Some(ValueView::Flag(a.tty)));
    assert(b.sync_rows_cols != a.sync_rows_cols ==> meant(q, m, "syncRowsCols"@) == Some(
        ValueView::Flag(a.sync_rows_cols),
    ));
    assert(b.restart != a.restart ==> meant(q, m, "restart"@) == Some(ValueView::Text(policy_word(a.restart))));
    assert(b.persist_logs != a.persist_logs ==> meant(q, m, "persist_logs"@) == Some(
        ValueView::Flag(a.persist_logs),
    ));
    assert(b.log_max_bytes != a.log_max_bytes ==> meant(q, m, "log_max_bytes"@) == Some(
        ValueView::Number(a.log_max_bytes),
    ));
    assert(b.log_max_files != a.log_max_files ==> meant(q, m, "log_max_files"@) == Some(
        ValueView::Number(a.log_max_files as u64),
    ));
}

} // verus!
