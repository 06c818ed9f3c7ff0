//! A configuration file that is open in the form.
use crate::config::{valid_config, validation, ConfigView, ServiceConfig, policy_text, ConfigError};
use crate::env::{has_key, pairs_map, EnvMap, PairView};
use crate::form::saving::{
    cwd_value, fields_written, law_an_edit_changes_one_property, law_an_inner_edit_changes_one_property,
    law_saving_says_what_the_form_says, lemma_nothing_told, lemma_told_names, policy_word, saved_as, says, told, vars_removed,
    vars_written, written,
};
use crate::form::source::{fault_text, find_member, json5_valid, named, parse, root, root_node, set_outcome, source_fault, value_source, Fault, SourceError, Value, ValueView};
use crate::logs::display::{char_size, utf8_size};
use crate::text::{chars_of, opt_view, same, same_opt};
use vstd::prelude::*;

verus! {

/// The largest file that the form opens or writes.
pub const MAX_BYTES: u64 = 1_048_576;

#[derive(Debug)]
pub struct Document {
    pub path: String,
    pub target: String,
    pub original: String,
    pub saved_text: String,
    pub config: ServiceConfig,
    pub crlf: bool,
}

#[derive(Debug)]
pub enum DocumentError {
    NotRegular,
    TooLargeToOpen,
    TooLargeToWrite,
    Changed,
    Invalid(ConfigError),
    Source(SourceError),
    Mismatch,
    ReadOnly,
    HardLinks,
}

impl DocumentError {
    pub fn message(&self) -> (r: String)
        ensures
            self is NotRegular ==> r@ == "configuration must be a regular file"@,
            self is TooLargeToOpen ==> r@
                == "built-in editor supports files up to 1 MiB; use --editor for larger files"@,
            self is TooLargeToWrite ==> r@
                == "configuration exceeds 1 MiB; use --editor for larger files"@,
            self is Changed ==> r@
                == "File changed outside this editor. Your changes were not written. Use Ctrl+R to reload, or return to editing and copy your changes before reloading."@,
            *self matches DocumentError::Invalid(e) ==> r@ == crate::config::error_text(e),
            *self matches DocumentError::Source(e) ==> r@ == fault_text(e@),
            self is Mismatch ==> r@
                == "generated configuration does not match the form; file was not changed"@,
            self is ReadOnly ==> r@ == "configuration is read-only; permissions were not changed"@,
            self is HardLinks ==> r@
                == "configuration has multiple hard links; use --editor to preserve them"@,
    {
        match self {
            DocumentError::NotRegular => "configuration must be a regular file".to_owned(),
            DocumentError::TooLargeToOpen => "built-in editor supports files up to 1 MiB; use --editor for larger files".to_owned(),
            DocumentError::TooLargeToWrite => "configuration exceeds 1 MiB; use --editor for larger files".to_owned(),
            DocumentError::Changed => "File changed outside this editor. Your changes were not written. Use Ctrl+R to reload, or return to editing and copy your changes before reloading.".to_owned(),
            DocumentError::Invalid(e) => e.message(),
            DocumentError::Source(e) => e.message(),
            DocumentError::Mismatch => "generated configuration does not match the form; file was not changed".to_owned(),
            DocumentError::ReadOnly => "configuration is read-only; permissions were not changed".to_owned(),
            DocumentError::HardLinks => "configuration has multiple hard links; use --editor to preserve them".to_owned(),
        }
    }
}

/// CR LF as LF, from `i` on; a CR by itself stays.
pub open spec fn lf_only(s: Seq<char>, i: int) -> Seq<char>
    decreases s.len() - i,
{
    if i < 0 || i >= s.len() {
        Seq::empty()
    } else if s[i] == '\r' && i + 1 < s.len() && s[i + 1] == '\n' {
        seq!['\n'] + lf_only(s, i + 2)
    } else {
        seq![s[i]] + lf_only(s, i + 1)
    }
}

/// LF as CR LF.
pub open spec fn crlf_only(s: Seq<char>) -> Seq<char>
    decreases s.len(),
{
    if s.len() == 0 {
        Seq::empty()
    } else if s.last() == '\n' {
        crlf_only(s.drop_last()) + seq!['\r', '\n']
    } else {
        crlf_only(s.drop_last()).push(s.last())
    }
}

/// There is a LF at or behind `i` with no CR before it.
pub open spec fn lone_lf(s: Seq<char>, i: int) -> bool {
    exists|k: int| i <= k < s.len() && #[trigger] s[k] == '\n' && (k == 0 || s[k - 1] != '\r')
}

/// There is a CR LF.
pub open spec fn has_crlf(s: Seq<char>) -> bool {
    exists|k: int| 0 < k < s.len() && #[trigger] s[k] == '\n' && s[k - 1] == '\r'
}

/// Every line of the file ends in CR LF.
pub open spec fn is_crlf(s: Seq<char>) -> bool {
    has_crlf(s) && !lone_lf(s, 0)
}

pub fn uses_crlf(text: &str) -> (r: bool)
    ensures
        r == is_crlf(text@),
{
    let v = chars_of(text);
    let mut found = false;
    let mut i: usize = 0;
    while i < v.len()
        invariant
            v@ == text@,
            i <= v@.len(),
            found == (exists|k: int| 0 < k < i && #[trigger] text@[k] == '\n' && text@[k - 1] == '\r'),
            forall|k: int| 0 <= k < i && #[trigger] text@[k] == '\n' ==> k > 0 && text@[k - 1] == '\r',
        decreases v@.len() - i,
    {
        if v[i] == '\n' {
            if i == 0 || v[i - 1] != '\r' {
                assert(text@[i as int] == '\n');
                return false;
            }
            assert(text@[i as int] == '\n');
            found = true;
        }
        i += 1;
    }
    found
}

pub fn to_lf(text: &str) -> (r: String)
    ensures
        r@ == lf_only(text@, 0),
{
    let v = chars_of(text);
    let mut out = String::new();
    let mut i: usize = 0;
    assert(out@ + lf_only(v@, 0) =~= lf_only(v@, 0));
    while i < v.len()
        invariant
            v@ == text@,
            i <= v@.len(),
            out@ + lf_only(v@, i as int) == lf_only(v@, 0),
        decreases v@.len() - i,
    {
        let ghost before = out@;
        let c = v[i];
        if c == '\r' && v.len() - i >= 2 && v[i + 1] == '\n' {
            out.push('\n');
            assert(out@ + lf_only(v@, i + 2) =~= before + (seq!['\n'] + lf_only(v@, i + 2)));
            i += 2;
        } else {
            out.push(c);
            assert(out@ + lf_only(v@, i + 1) =~= before + (seq![c] + lf_only(v@, i + 1)));
            i += 1;
        }
    }
    assert(out@ =~= lf_only(v@, 0));
    out
}

pub fn to_crlf(text: &str) -> (r: String)
    ensures
        r@ == crlf_only(text@),
{
    let v = chars_of(text);
    let mut out = String::new();
    let mut i: usize = 0;
    assert(text@.take(0) =~= Seq::<char>::empty());
    while i < v.len()
        invariant
            v@ == text@,
            i <= v@.len(),
            out@ == crlf_only(text@.take(i as int)),
        decreases v@.len() - i,
    {
        assert(text@.take(i + 1).drop_last() =~= text@.take(i as int));
        assert(text@.take(i + 1).last() == text@[i as int]);
        let ghost before = out@;
        if v[i] == '\n' {
            out.push('\r');
            out.push('\n');
            assert(out@ =~= before + seq!['\r', '\n']);
        } else {
            out.push(v[i]);
        }
        i += 1;
    }
    assert(text@.take(text@.len() as int) =~= text@);
    out
}

proof fn lemma_lf_shift(s: Seq<char>, t: Seq<char>, i: int)
    requires
        0 <= i <= t.len(),
    ensures
        lf_only(s + t, s.len() + i) == lf_only(t, i),
    decreases t.len() - i,
{
    if i < t.len() {
        if t[i] == '\r' && i + 1 < t.len() && t[i + 1] == '\n' {
            lemma_lf_shift(s, t, i + 2);
        } else {
            lemma_lf_shift(s, t, i + 1);
        }
    }
}

/// A text without CR that is written with CR LF line ends is read back as it was.
pub proof fn law_line_ends_round_trip(s: Seq<char>)
    requires
        !s.contains('\r'),
    ensures
        lf_only(crlf_only(s), 0) == s,
    decreases s.len(),
{
    if s.len() > 0 {
        let f = s.drop_last();
        assert(!f.contains('\r')) by {
            if f.contains('\r') {
                let k = choose|k: int| 0 <= k < f.len() && f[k] == '\r';
                assert(s[k] == '\r');
            }
        }
        law_line_ends_round_trip(f);
        assert(s[s.len() - 1] == s.last());
        assert(s.last() != '\r');
        let tail = if s.last() == '\n' { seq!['\r', '\n'] } else { seq![s.last()] };
        lemma_crlf_paired(f);
        assert(crlf_only(s) =~= crlf_only(f) + tail);
        lemma_lf_append(crlf_only(f), tail, 0);
        assert(lf_only(tail, 0) =~= seq![s.last()]) by {
            reveal_with_fuel(lf_only, 3);
        }
        assert(s =~= f.push(s.last()));
        assert(f + seq![s.last()] =~= s);
    }
}

/// No CR stands at the end of what `crlf_only` writes.
proof fn lemma_crlf_paired(s: Seq<char>)
    requires
        !s.contains('\r'),
    ensures
        crlf_only(s).len() > 0 ==> crlf_only(s).last() != '\r',
{
    if s.len() > 0 {
        assert(s.last() == s[s.len() - 1]);
        if s.last() == '\n' {
            assert(crlf_only(s).last() == '\n');
        }
    }
}

proof fn lemma_lf_append(a: Seq<char>, b: Seq<char>, i: int)
    requires
        0 <= i <= a.len(),
        a.len() > 0 ==> a.last() != '\r',
    ensures
        lf_only(a + b, i) == lf_only(a, i) + lf_only(b, 0),
    decreases a.len() - i,
{
    let ab = a + b;
    if i == a.len() {
        lemma_lf_shift(a, b, 0);
        assert(lf_only(a, i) + lf_only(b, 0) =~= lf_only(b, 0));
    } else if a[i] == '\r' && i + 1 < a.len() && a[i + 1] == '\n' {
        lemma_lf_append(a, b, i + 2);
        assert(ab[i] == a[i] && ab[i + 1] == a[i + 1]);
        assert(lf_only(ab, i) =~= lf_only(a, i) + lf_only(b, 0));
    } else {
        lemma_lf_append(a, b, i + 1);
        assert(ab[i] == a[i]);
        if a[i] == '\r' {
            assert(i + 1 < a.len());
            assert(ab[i + 1] == a[i + 1]);
        }
        assert(lf_only(ab, i) =~= lf_only(a, i) + lf_only(b, 0));
    }
}

// ---------------------------------------------------------------------------------------------
// Writing the form back

/// One change of the source.
pub struct ChangeView {
    pub object: Option<Seq<char>>,
    pub key: Seq<char>,
    pub value: Option<ValueView>,
}

#[verifier::opaque]
pub open spec fn field_change(changed: bool, key: Seq<char>, value: ValueView) -> Seq<ChangeView> {
    if changed {
        seq![ChangeView { object: None, key, value: Some(value) }]
    } else {
        Seq::empty()
    }
}

/// The fields that differ, in the order in which they are written.
pub open spec fn field_changes(b: ConfigView, a: ConfigView) -> Seq<ChangeView> {
    field_change(b.name != a.name, "name"@, ValueView::Text(a.name)) + field_change(
        b.command != a.command,
        "command"@,
        ValueView::Text(a.command),
    ) + field_change(
        b.cwd != a.cwd,
        "cwd"@,
        match a.cwd {
            Some(d) => ValueView::Text(d),
            None => ValueView::Null,
        },
    ) + field_change(b.tty != a.tty, "tty"@, ValueView::Flag(a.tty)) + field_change(
        b.sync_rows_cols != a.sync_rows_cols,
        "syncRowsCols"@,
        ValueView::Flag(a.sync_rows_cols),
    ) + field_change(b.restart != a.restart, "restart"@, ValueView::Text(policy_text(a.restart)))
        + field_change(
        b.persist_logs != a.persist_logs,
        "persist_logs"@,
        ValueView::Flag(a.persist_logs),
    ) + field_change(
        b.log_max_bytes != a.log_max_bytes,
        "log_max_bytes"@,
        ValueView::Number(a.log_max_bytes),
    ) + field_change(
        b.log_max_files != a.log_max_files,
        "log_max_files"@,
        ValueView::Number(a.log_max_files as u64),
    )
}

/// The source after one change.
pub open spec fn change_outcome(r: Result<Seq<char>, Fault>, c: ChangeView) -> Result<
    Seq<char>,
    Fault,
> {
    match r {
        Err(f) => Err(f),
        Ok(s) => set_outcome(s, c.object, c.key, c.value),
    }
}

/// The source after all changes, one behind the other.
#[verifier::opaque]
pub open spec fn changes_outcome(s: Seq<char>, changes: Seq<ChangeView>) -> Result<Seq<char>, Fault>
    decreases changes.len(),
{
    if changes.len() == 0 {
        Ok(s)
    } else {
        change_outcome(changes_outcome(s, changes.drop_last()), changes.last())
    }
}

/// The first `n` variables of `b` that `a` no longer has.
pub open spec fn env_removals(b: Seq<PairView>, a: Seq<PairView>, n: int) -> Seq<ChangeView>
    decreases n,
{
    if n <= 0 {
        Seq::empty()
    } else {
        let front = env_removals(b, a, n - 1);
        if has_key(a, b[n - 1].0) {
            front
        } else {
            front.push(ChangeView { object: Some("env"@), key: b[n - 1].0, value: None })
        }
    }
}

/// Whether `b` already gives the variable that value.
pub open spec fn env_same(b: Seq<PairView>, p: PairView) -> bool {
    has_key(b, p.0) && pairs_map(b)[p.0] == p.1
}

/// Those of the first `n` variables of `a` that are new or have a new value.
pub open spec fn env_updates(b: Seq<PairView>, a: Seq<PairView>, n: int) -> Seq<ChangeView>
    decreases n,
{
    if n <= 0 {
        Seq::empty()
    } else {
        let front = env_updates(b, a, n - 1);
        if env_same(b, a[n - 1]) {
            front
        } else {
            front.push(
                ChangeView {
                    object: Some("env"@),
                    key: a[n - 1].0,
                    value: Some(ValueView::Text(a[n - 1].1)),
                },
            )
        }
    }
}

/// The source with an `env` object in it.
pub open spec fn with_env_object(s: Seq<char>) -> Result<Seq<char>, Fault> {
    match source_fault(json5_valid(s), s) {
        Some(f) => Err(f),
        None => match root_node(s) {
            Err(f) => Err(f),
            Ok(n) => if named(n.members->0, "env"@) {
                Ok(s)
            } else {
                set_outcome(s, None, "env"@, Some(ValueView::EmptyObject))
            },
        },
    }
}

/// The source that says what the form says, changed only where the form differs from what was
/// read.
pub open spec fn rewritten(s: Seq<char>, b: ConfigView, a: ConfigView) -> Result<Seq<char>, Fault> {
    match changes_outcome(s, field_changes(b, a)) {
        Err(f) => Err(f),
        Ok(t) => if a.env == b.env {
            Ok(t)
        } else {
            match with_env_object(t) {
                Err(f) => Err(f),
                Ok(u) => match changes_outcome(u, env_removals(b.env, a.env, b.env.len() as int)) {
                    Err(f) => Err(f),
                    Ok(v) => changes_outcome(v, env_updates(b.env, a.env, a.env.len() as int)),
                },
            }
        },
    }
}

pub open spec fn text_result(r: Result<String, SourceError>) -> Result<Seq<char>, Fault> {
    match r {
        Ok(t) => Ok(t@),
        Err(e) => Err(e@),
    }
}

proof fn lemma_changes_append(s: Seq<char>, a: Seq<ChangeView>, b: Seq<ChangeView>)
    ensures
        changes_outcome(s, a + b) == (match changes_outcome(s, a) {
            Err(f) => Err(f),
            Ok(t) => changes_outcome(t, b),
        }),
    decreases b.len(),
{
    reveal_with_fuel(changes_outcome, 2);
    if b.len() == 0 {
        assert(a + b =~= a);
    } else {
        lemma_changes_append(s, a, b.drop_last());
        assert((a + b).drop_last() =~= a + b.drop_last());
        assert((a + b).last() == b.last());
    }
}

/// One more field, where it differs.
fn step(text: Result<String, SourceError>, changed: bool, key: &str, value: Value, Ghost(s): Ghost<Seq<char>>, Ghost(done): Ghost<Seq<ChangeView>>) -> (r: Result<String, SourceError>)
    requires
        text_result(text) == changes_outcome(s, done),
    ensures
        text_result(r) == changes_outcome(s, done + field_change(changed, key@, value@)),
        text is Err ==> r is Err,
        forall|p: Map<Seq<char>, Seq<char>>|
            r is Ok && #[trigger] says(text->Ok_0@, p) ==> says(r->Ok_0@, written(p, changed, key@, value@)),
{
    proof {
        reveal(field_change);
        reveal(written);
        reveal(says);
        reveal_with_fuel(changes_outcome, 2);
        lemma_changes_append(s, done, field_change(changed, key@, value@));
        let one = field_change(changed, key@, value@);
        if changed {
            assert(one.drop_last() =~= Seq::<ChangeView>::empty());
        }
    }
    match text {
        Err(e) => Err(e),
        Ok(t) => if changed {
            assert(changes_outcome(t@, field_change(changed, key@, value@)) == change_outcome(
                Ok(t@),
                ChangeView { object: None, key: key@, value: Some(value@) },
            )) by {
                let one = field_change(changed, key@, value@);
                assert(one.drop_last() =~= Seq::<ChangeView>::empty());
                assert(changes_outcome(t@, one.drop_last()) == Ok::<Seq<char>, Fault>(t@));
            }
            let r = crate::form::source::set(t.as_str(), None, key, Some(&value));
            proof {
                if r is Ok {
                    law_an_edit_changes_one_property(t@, r->Ok_0@, key@, Some(value_source(value@)));
                }
            }
            r
        } else {
            Ok(t)
        },
    }
}

#[verifier::rlimit(60)]
fn change_fields(text: &str, before: &ServiceConfig, after: &ServiceConfig) -> (r: Result<
    String,
    SourceError,
>)
    ensures
        text_result(r) == changes_outcome(text@, field_changes(before@, after@)),
        r is Ok ==> says(r->Ok_0@, fields_written(told(text@), before@, after@)),
{
    let ghost s = text@;
    let ghost b = before@;
    let ghost a = after@;
    let ghost d0 = Seq::<ChangeView>::empty();
    let t = Ok(text.to_owned());
    proof {
        reveal_with_fuel(changes_outcome, 1);
        assert(says(text@, told(text@))) by {
            reveal(says);
        }
    }
    let ghost p0 = told(s);
    let name = Value::Text(after.name.clone());
    let c1 = !same(before.name.as_str(), after.name.as_str());
    let t = step(t, c1, "name", name, Ghost(s), Ghost(d0));
    let ghost d1 = field_change(b.name != a.name, "name"@, ValueView::Text(a.name));
    assert(d0 + d1 =~= d1);
    let ghost p1 = written(p0, b.name != a.name, "name"@, ValueView::Text(a.name));
    assert(t is Ok ==> says(t->Ok_0@, p1));
    let c2 = !same(before.command.as_str(), after.command.as_str());
    let command = Value::Text(after.command.clone());
    let t = step(t, c2, "command", command, Ghost(s), Ghost(d1));
    let ghost d2 = d1 + field_change(b.command != a.command, "command"@, ValueView::Text(a.command));
    let ghost p2 = written(p1, b.command != a.command, "command"@, ValueView::Text(a.command));
    assert(t is Ok ==> says(t->Ok_0@, p2));
    let c3 = !same_opt(&before.cwd, &after.cwd);
    let cwd = match &after.cwd {
        Some(d) => Value::Text(d.clone()),
        None => Value::Null,
    };
    let ghost cwd_view = match a.cwd {
        Some(d) => ValueView::Text(d),
        None => ValueView::Null,
    };
    let t = step(t, c3, "cwd", cwd, Ghost(s), Ghost(d2));
    let ghost d3 = d2 + field_change(b.cwd != a.cwd, "cwd"@, cwd_view);
    let ghost p3 = written(p2, b.cwd != a.cwd, "cwd"@, cwd_value(a.cwd));
    assert(t is Ok ==> says(t->Ok_0@, p3));
    let t = step(t, before.tty != after.tty, "tty", Value::Flag(after.tty), Ghost(s), Ghost(d3));
    let ghost d4 = d3 + field_change(b.tty != a.tty, "tty"@, ValueView::Flag(a.tty));
    let ghost p4 = written(p3, b.tty != a.tty, "tty"@, ValueView::Flag(a.tty));
    assert(t is Ok ==> says(t->Ok_0@, p4));
    let t = step(
        t,
        before.sync_rows_cols != after.sync_rows_cols,
        "syncRowsCols",
        Value::Flag(after.sync_rows_cols),
        Ghost(s),
        Ghost(d4),
    );
    let ghost d5 = d4 + field_change(
        b.sync_rows_cols != a.sync_rows_cols,
        "syncRowsCols"@,
        ValueView::Flag(a.sync_rows_cols),
    );
    let ghost p5 = written(p4, b.sync_rows_cols != a.sync_rows_cols, "syncRowsCols"@, ValueView::Flag(a.sync_rows_cols));
    assert(t is Ok ==> says(t->Ok_0@, p5));
    let policy = Value::Text(after.restart.as_str().to_owned());
    let t = step(t, before.restart != after.restart, "restart", policy, Ghost(s), Ghost(d5));
    let ghost d6 = d5 + field_change(
        b.restart != a.restart,
        "restart"@,
        ValueView::Text(policy_text(a.restart)),
    );
    let ghost p6 = written(p5, b.restart != a.restart, "restart"@, ValueView::Text(policy_word(a.restart)));
    assert(t is Ok ==> says(t->Ok_0@, p6));
    let t = step(
        t,
        before.persist_logs != after.persist_logs,
        "persist_logs",
        Value::Flag(after.persist_logs),
        Ghost(s),
        Ghost(d6),
    );
    let ghost d7 = d6 + field_change(
        b.persist_logs != a.persist_logs,
        "persist_logs"@,
        ValueView::Flag(a.persist_logs),
    );
    let ghost p7 = written(p6, b.persist_logs != a.persist_logs, "persist_logs"@, ValueView::Flag(a.persist_logs));
    assert(t is Ok ==> says(t->Ok_0@, p7));
    let t = step(
        t,
        before.log_max_bytes != after.log_max_bytes,
        "log_max_bytes",
        Value::Number(after.log_max_bytes),
        Ghost(s),
        Ghost(d7),
    );
    let ghost d8 = d7 + field_change(
        b.log_max_bytes != a.log_max_bytes,
        "log_max_bytes"@,
        ValueView::Number(a.log_max_bytes),
    );
    let ghost p8 = written(p7, b.log_max_bytes != a.log_max_bytes, "log_max_bytes"@, ValueView::Number(a.log_max_bytes));
    assert(t is Ok ==> says(t->Ok_0@, p8));
    let t = step(
        t,
        before.log_max_files != after.log_max_files,
        "log_max_files",
        Value::Number(after.log_max_files as u64),
        Ghost(s),
        Ghost(d8),
    );
    t
}

fn ensure_env(text: String) -> (r: Result<String, SourceError>)
    ensures
        text_result(r) == with_env_object(text@),
        r is Ok ==> {
            let p = told(text@);
            let q = told(r->Ok_0@);
            &&& q.contains_key("env"@)
            &&& q.remove("env"@) == p.remove("env"@)
            &&& told(q["env"@]) == if p.contains_key("env"@) {
                told(p["env"@])
            } else {
                Map::empty()
            }
        },
{
    match parse(text.as_str()) {
        Err(e) => {
            return Err(e);
        },
        Ok(()) => {},
    }
    let node = match root(text.as_str()) {
        Err(e) => {
            return Err(e);
        },
        Ok(n) => n,
    };
    let present = match &node.members {
        Some(ms) => find_member(ms, "env").is_some(),
        None => true,
    };
    proof {
        lemma_told_names(text@);
    }
    if present {
        Ok(text)
    } else {
        let r = crate::form::source::set(text.as_str(), None, "env", Some(&Value::EmptyObject));
        proof {
            if r is Ok {
                law_an_edit_changes_one_property(text@, r->Ok_0@, "env"@, Some(value_source(ValueView::EmptyObject)));
                lemma_nothing_told();
                assert(told(r->Ok_0@).remove("env"@) =~= told(text@).remove("env"@));
            }
        }
        r
    }
}

fn remove_vars(text: String, before: &EnvMap, after: &EnvMap) -> (r: Result<String, SourceError>)
    ensures
        text_result(r) == changes_outcome(
            text@,
            env_removals(before@, after@, before@.len() as int),
        ),
        r is Ok && told(text@).contains_key("env"@) ==> {
            let p = told(text@);
            let q = told(r->Ok_0@);
            &&& q.contains_key("env"@)
            &&& q.remove("env"@) == p.remove("env"@)
            &&& told(q["env"@]) == vars_removed(told(p["env"@]), before@, after@, before@.len() as int)
        },
{
    let ghost s = text@;
    let mut current = text;
    let mut i: usize = 0;
    let mut failed: Option<SourceError> = None;
    proof {
        reveal_with_fuel(changes_outcome, 2);
    }
    while i < before.len()
        invariant
            i <= before@.len(),
            failed is None ==> changes_outcome(s, env_removals(before@, after@, i as int)) == Ok::<
                Seq<char>,
                Fault,
            >(current@),
            failed is Some ==> changes_outcome(s, env_removals(before@, after@, i as int)) == Err::<
                Seq<char>,
                Fault,
            >(failed->0@),
            failed is None && told(s).contains_key("env"@) ==> {
                let p = told(s);
                let q = told(current@);
                &&& q.contains_key("env"@)
                &&& q.remove("env"@) == p.remove("env"@)
                &&& told(q["env"@]) == vars_removed(told(p["env"@]), before@, after@, i as int)
            },
        decreases before@.len() - i,
    {
        let key = before.key(i);
        let ghost all = env_removals(before@, after@, i + 1);
        if !after.contains_key(key.as_str()) {
            reveal_with_fuel(changes_outcome, 2);
            assert(all.drop_last() =~= env_removals(before@, after@, i as int));
            assert(all.last() == ChangeView { object: Some("env"@), key: key@, value: None });
            if failed.is_none() {
                match crate::form::source::set(current.as_str(), Some("env"), key.as_str(), None) {
                    Ok(t) => {
                        proof {
                            law_an_inner_edit_changes_one_property(current@, t@, "env"@, key@, None);
                        }
                        current = t;
                    },
                    Err(e) => {
                        failed = Some(e);
                    },
                }
            }
        }
        i += 1;
    }
    match failed {
        Some(e) => Err(e),
        None => Ok(current),
    }
}

fn update_vars(text: String, before: &EnvMap, after: &EnvMap) -> (r: Result<String, SourceError>)
    ensures
        text_result(r) == changes_outcome(text@, env_updates(before@, after@, after@.len() as int)),
        r is Ok && told(text@).contains_key("env"@) ==> {
            let p = told(text@);
            let q = told(r->Ok_0@);
            &&& q.contains_key("env"@)
            &&& q.remove("env"@) == p.remove("env"@)
            &&& told(q["env"@]) == vars_written(told(p["env"@]), before@, after@, after@.len() as int)
        },
{
    let ghost s = text@;
    let mut current = text;
    let mut i: usize = 0;
    let mut failed: Option<SourceError> = None;
    proof {
        reveal_with_fuel(changes_outcome, 2);
    }
    while i < after.len()
        invariant
            i <= after@.len(),
            failed is None ==> changes_outcome(s, env_updates(before@, after@, i as int)) == Ok::<
                Seq<char>,
                Fault,
            >(current@),
            failed is Some ==> changes_outcome(s, env_updates(before@, after@, i as int)) == Err::<
                Seq<char>,
                Fault,
            >(failed->0@),
            failed is None && told(s).contains_key("env"@) ==> {
                let p = told(s);
                let q = told(current@);
                &&& q.contains_key("env"@)
                &&& q.remove("env"@) == p.remove("env"@)
                &&& told(q["env"@]) == vars_written(told(p["env"@]), before@, after@, i as int)
            },
        decreases after@.len() - i,
    {
        let key = after.key(i);
        let value = after.value(i);
        let ghost all = env_updates(before@, after@, i + 1);
        let known = before.contains_key(key.as_str());
        let unchanged = match before.get(key.as_str()) {
            Some(v) => same(v.as_str(), value.as_str()),
            None => false,
        };
        assert(unchanged == env_same(before@, after@[i as int]));
        if !unchanged {
            reveal_with_fuel(changes_outcome, 2);
            assert(all.drop_last() =~= env_updates(before@, after@, i as int));
            assert(all.last() == ChangeView {
                object: Some("env"@),
                key: key@,
                value: Some(ValueView::Text(value@)),
            });
            if failed.is_none() {
                let v = Value::Text(value.clone());
                match crate::form::source::set(current.as_str(), Some("env"), key.as_str(), Some(&v)) {
                    Ok(t) => {
                        proof {
                            let source = value_source(v@);
                            law_an_inner_edit_changes_one_property(current@, t@, "env"@, key@, Some(source));
                        }
                        current = t;
                    },
                    Err(e) => {
                        failed = Some(e);
                    },
                }
            }
        }
        i += 1;
    }
    match failed {
        Some(e) => Err(e),
        None => Ok(current),
    }
}

/// What is there when the file is about to be written.
#[derive(Debug)]
pub struct FileState {
    pub target: Option<String>,
    pub content: Option<String>,
    pub mode: u32,
    pub links: u64,
}

/// What to do with the file.
#[derive(Debug)]
pub enum SavePlan {
    Unchanged,
    Write(String),
}

/// What is done with a text that is to be written.
pub open spec fn is_save_plan(d: Document, text: Seq<char>, state: FileState, r: Result<SavePlan, DocumentError>) -> bool {
    let small = utf8_size(text) <= MAX_BYTES;
    let unchanged = opt_view(state.target) == Some(d.target@) && opt_view(state.content) == Some(d.original@);
    match r {
        Err(DocumentError::TooLargeToWrite) => !small,
        Err(DocumentError::Changed) => small && !unchanged,
        Ok(SavePlan::Unchanged) => small && unchanged && text == d.saved_text@,
        Err(DocumentError::ReadOnly) => small && unchanged && text != d.saved_text@ && state.mode & 0o222 == 0,
        Err(DocumentError::HardLinks) => small && unchanged && text != d.saved_text@ && state.mode & 0o222 != 0
            && state.links > 1,
        Ok(SavePlan::Write(out)) => {
            &&& small && unchanged && text != d.saved_text@ && state.mode & 0o222 != 0 && state.links <= 1
            &&& out@ == (if d.crlf {
                crlf_only(text)
            } else {
                text
            })
        },
        Err(_) => false,
    }
}

/// A file is written exactly where there is something new to write, it is still the one that was
/// read, somebody may write it, no other name leads to it, and the text is not too large. Where
/// nothing is new, nothing is written.
pub proof fn law_files_are_written_with_care(
    d: Document,
    text: Seq<char>,
    state: FileState,
    r: Result<SavePlan, DocumentError>,
)
    requires
        is_save_plan(d, text, state, r),
    ensures
        ({
            let m = state.mode;
            let same_file = opt_view(state.target) == Some(d.target@) && opt_view(state.content) == Some(d.original@);
            let writable = m & 0o200 == 0o200 || m & 0o020 == 0o020 || m & 0o002 == 0o002;
            let small = utf8_size(text) <= 1_048_576;
            &&& (r matches Ok(SavePlan::Write(_))) <==> small && same_file && text != d.saved_text@ && writable
                && state.links <= 1
            &&& (r matches Ok(SavePlan::Unchanged)) <==> small && same_file && text == d.saved_text@
            &&& small && !same_file <==> (r matches Err(DocumentError::Changed))
            &&& r matches Ok(SavePlan::Write(out)) ==> (!d.crlf ==> out@ == text)
            &&& r matches Ok(SavePlan::Write(out)) ==> (d.crlf ==> out@ == crlf_only(text))
        }),
{
    let m = state.mode;
    assert(m & 0o222 != 0 <==> m & 0o200 == 0o200 || m & 0o020 == 0o020 || m & 0o002 == 0o002) by (bit_vector);
}

/// How many bytes a text takes, where that is at most `max`.
fn size_within(text: &str, max: u64) -> (r: bool)
    ensures
        r == (utf8_size(text@) <= max),
{
    let v = chars_of(text);
    let mut used: u64 = 0;
    let mut i: usize = v.len();
    assert(v@.skip(v@.len() as int) =~= Seq::<char>::empty());
    while i > 0
        invariant
            v@ == text@,
            i <= v@.len(),
            used <= max,
            used == utf8_size(v@.skip(i as int)),
        decreases i,
    {
        let size = char_size(v[i - 1]) as u64;
        assert(v@.skip(i - 1)[0] == v@[i - 1]);
        assert(v@.skip(i - 1).skip(1) =~= v@.skip(i as int));
        if size > max - used {
            proof {
                lemma_size_of_end(v@, i - 1);
            }
            return false;
        }
        used += size;
        i -= 1;
    }
    assert(v@.skip(0) =~= text@);
    true
}

proof fn lemma_size_of_end(s: Seq<char>, i: int)
    requires
        0 <= i <= s.len(),
    ensures
        utf8_size(s.skip(i)) <= utf8_size(s),
    decreases i,
{
    if i == 0 {
        assert(s.skip(0) =~= s);
    } else {
        lemma_size_of_end(s, i - 1);
        assert(s.skip(i - 1).skip(1) =~= s.skip(i));
    }
}

impl Document {
    /// Whether a file can be opened in the form.
    pub fn check_file(regular: bool, bytes: u64) -> (r: Result<(), DocumentError>)
        ensures
            match r {
                Ok(()) => regular && bytes <= MAX_BYTES,
                Err(DocumentError::NotRegular) => !regular,
                Err(DocumentError::TooLargeToOpen) => regular && bytes > MAX_BYTES,
                Err(_) => false,
            },
    {
        if !regular {
            return Err(DocumentError::NotRegular);
        }
        if bytes > MAX_BYTES {
            return Err(DocumentError::TooLargeToOpen);
        }
        Ok(())
    }

    /// A file that was read as `original` and says `config`.
    pub fn open(path: String, target: String, original: String, config: ServiceConfig) -> (r: Self)
        ensures
            r.path == path,
            r.target == target,
            r.original == original,
            r.config == config,
            r.crlf == is_crlf(original@),
            r.saved_text@ == lf_only(original@, 0),
    {
        let crlf = uses_crlf(original.as_str());
        let saved_text = to_lf(original.as_str());
        Document { path, target, original, saved_text, config, crlf }
    }

    /// Whether a text that reads as `config` may be kept.
    pub fn validate(config: &ServiceConfig) -> (r: Result<(), DocumentError>)
        ensures
            match r {
                Ok(()) => valid_config(config@),
                Err(DocumentError::Invalid(e)) => validation(config@, Err(e)) && !valid_config(config@),
                Err(_) => false,
            },
    {
        match config.validate() {
            Ok(()) => Ok(()),
            Err(e) => Err(DocumentError::Invalid(e)),
        }
    }

    /// The file is still the one that was read.
    pub fn check_unchanged(&self, state: &FileState) -> (r: Result<(), DocumentError>)
        ensures
            match r {
                Ok(()) => opt_view(state.target) == Some(self.target@) && opt_view(state.content)
                    == Some(self.original@),
                Err(DocumentError::Changed) => opt_view(state.target) != Some(self.target@)
                    || opt_view(state.content) != Some(self.original@),
                Err(_) => false,
            },
    {
        let same_target = match &state.target {
            Some(t) => same(t.as_str(), self.target.as_str()),
            None => false,
        };
        let same_content = match &state.content {
            Some(t) => same(t.as_str(), self.original.as_str()),
            None => false,
        };
        if same_target && same_content {
            Ok(())
        } else {
            Err(DocumentError::Changed)
        }
    }

    /// The source for a new configuration: only what differs from the file is written anew.
    pub fn save_config(&self, config: &ServiceConfig) -> (r: Result<String, DocumentError>)
        ensures
            match r {
                Ok(t) => valid_config(config@) && rewritten(
                    self.saved_text@,
                    self.config@,
                    config@,
                ) == Ok::<Seq<char>, Fault>(t@),
                Err(DocumentError::Invalid(e)) => !valid_config(config@) && validation(
                    config@,
                    Err(e),
                ),
                Err(DocumentError::Source(e)) => valid_config(config@) && rewritten(
                    self.saved_text@,
                    self.config@,
                    config@,
                ) == Err::<Seq<char>, Fault>(e@),
                Err(_) => false,
            },
            r is Ok ==> saved_as(self.saved_text@, self.config@, config@, r->Ok_0@),
    {
        let ghost s = self.saved_text@;
        let ghost b = self.config@;
        let ghost a = config@;
        reveal(says);
        match config.validate() {
            Ok(()) => {},
            Err(e) => {
                return Err(DocumentError::Invalid(e));
            },
        }
        let text = match change_fields(self.saved_text.as_str(), &self.config, config) {
            Ok(t) => t,
            Err(e) => {
                return Err(DocumentError::Source(e));
            },
        };
        if config.env.same_as(&self.config.env) {
            proof {
                law_saving_says_what_the_form_says(s, b, a, text@);
            }
            return Ok(text);
        }
        let text = match ensure_env(text) {
            Ok(t) => t,
            Err(e) => {
                return Err(DocumentError::Source(e));
            },
        };
        let text = match remove_vars(text, &self.config.env, &config.env) {
            Ok(t) => t,
            Err(e) => {
                return Err(DocumentError::Source(e));
            },
        };
        match update_vars(text, &self.config.env, &config.env) {
            Ok(t) => {
                proof {
                    law_saving_says_what_the_form_says(s, b, a, t@);
                }
                Ok(t)
            },
            Err(e) => Err(DocumentError::Source(e)),
        }
    }

    /// Whether the written source reads as the form says.
    pub fn check_generated(generated: &ServiceConfig, config: &ServiceConfig) -> (r: Result<
        (),
        DocumentError,
    >)
        ensures
            match r {
                Ok(()) => generated@ == config@,
                Err(DocumentError::Mismatch) => generated@ != config@,
                Err(_) => false,
            },
    {
        if generated.same_as(config) {
            Ok(())
        } else {
            Err(DocumentError::Mismatch)
        }
    }

    /// What has to be written for `text`: nothing where it is what was saved last. A file that
    /// changed meanwhile, is too large, cannot be written or has other names is left alone.
    pub fn save(&self, text: &str, state: &FileState) -> (r: Result<SavePlan, DocumentError>)
        ensures
            ({
                let small = utf8_size(text@) <= MAX_BYTES;
                let unchanged = opt_view(state.target) == Some(self.target@) && opt_view(
                    state.content,
                ) == Some(self.original@);
                match r {
                    Err(DocumentError::TooLargeToWrite) => !small,
                    Err(DocumentError::Changed) => small && !unchanged,
                    Ok(SavePlan::Unchanged) => small && unchanged && text@ == self.saved_text@,
                    Err(DocumentError::ReadOnly) => {
                        &&& small && unchanged && text@ != self.saved_text@
                        &&& state.mode & 0o222 == 0
                    },
                    Err(DocumentError::HardLinks) => {
                        &&& small && unchanged && text@ != self.saved_text@
                        &&& state.mode & 0o222 != 0
                        &&& state.links > 1
                    },
                    Ok(SavePlan::Write(out)) => {
                        &&& small && unchanged && text@ != self.saved_text@
                        &&& state.mode & 0o222 != 0
                        &&& state.links <= 1
                        &&& out@ == (if self.crlf { crlf_only(text@) } else { text@ })
                    },
                    Err(_) => false,
                }
            }),
            is_save_plan(*self, text@, *state, r),
    {
        if !size_within(text, MAX_BYTES) {
            return Err(DocumentError::TooLargeToWrite);
        }
        match self.check_unchanged(state) {
            Ok(()) => {},
            Err(e) => {
                return Err(e);
            },
        }
        if same(text, self.saved_text.as_str()) {
            return Ok(SavePlan::Unchanged);
        }
        if state.mode & 0o222 == 0 {
            return Err(DocumentError::ReadOnly);
        }
        if state.links > 1 {
            return Err(DocumentError::HardLinks);
        }
        if self.crlf {
            Ok(SavePlan::Write(to_crlf(text)))
        } else {
            Ok(SavePlan::Write(text.to_owned()))
        }
    }

    /// Notes that `output` was written for `text`, which says `config`.
    pub fn saved(&mut self, text: String, output: String, config: ServiceConfig)
        ensures
            final(self).path == old(self).path,
            final(self).target == old(self).target,
            final(self).crlf == old(self).crlf,
            final(self).original == output,
            final(self).saved_text == text,
            final(self).config == config,
    {
        self.original = output;
        self.saved_text = text;
        self.config = config;
    }
}

/// Saving what was read changes nothing: the source stays as it is.
pub proof fn law_saving_unchanged_keeps_the_source(s: Seq<char>, c: ConfigView)
    ensures
        rewritten(s, c, c) == Ok::<Seq<char>, Fault>(s),
{
    reveal(field_change);
    reveal_with_fuel(changes_outcome, 1);
    assert(field_changes(c, c) =~= Seq::<ChangeView>::empty());
}

} // verus!
