//! Which editor to start, and how.
use crate::quote::{push_quoted, quoted};
use crate::text::{cat2, cat4, integer_form, integer_text, is_blank, same};
use vstd::prelude::*;

verus! {

/// A text in single quotes, for the shell.
pub fn shell_quote(value: &str) -> (r: String)
    ensures
        r@ == quoted(value@),
{
    let mut out = String::new();
    push_quoted(&mut out, value);
    assert(Seq::<char>::empty() + quoted(value@) =~= quoted(value@));
    out
}

pub const FALLBACK_COUNT: usize = 8;

/// The editors that are looked for, in order of preference.
pub open spec fn fallback_name(i: int) -> Seq<char> {
    if i == 0 { "editor"@ } else if i == 1 { "sensible-editor"@ } else if i == 2 { "nvim"@ }
    else if i == 3 { "vim"@ } else if i == 4 { "vi"@ } else if i == 5 { "nano"@ }
    else if i == 6 { "micro"@ } else { "hx"@ }
}

pub fn fallback_editor(i: usize) -> (r: &'static str)
    ensures
        r@ == fallback_name(i as int),
{
    if i == 0 { "editor" } else if i == 1 { "sensible-editor" } else if i == 2 { "nvim" }
    else if i == 3 { "vim" } else if i == 4 { "vi" } else if i == 5 { "nano" }
    else if i == 6 { "micro" } else { "hx" }
}

/// A setting counts only where it is more than white space.
pub fn nonempty(value: Option<String>) -> (r: Option<String>)
    ensures
        match value {
            Some(v) => r == (if crate::text::blank(v@) { None } else { Some(v) }),
            None => r is None,
        },
{
    match value {
        Some(v) => {
            if is_blank(v.as_str()) {
                None
            } else {
                Some(v)
            }
        },
        None => None,
    }
}

/// The first fallback that is among the executables found.
pub open spec fn first_available(available: Seq<Seq<char>>, i: int) -> Option<Seq<char>>
    decreases FALLBACK_COUNT - i,
{
    if i < 0 || i >= FALLBACK_COUNT {
        None
    } else if available.contains(fallback_name(i)) {
        Some(fallback_name(i))
    } else {
        first_available(available, i + 1)
    }
}

pub open spec fn no_editor_text() -> Seq<char> {
    "no editor available; use -e/--editor, set EDITOR, or install one of: editor, sensible-editor, nvim, vim, vi, nano, micro, hx"@
}

/// Which editor is used.
pub open spec fn is_choice(
    explicit: Option<String>,
    configured: Option<String>,
    available: Seq<Seq<char>>,
    r: Result<String, String>,
) -> bool {
    if explicit is Some && !crate::text::blank(explicit->0@) {
        r == Ok::<String, String>(explicit->0)
    } else if configured is Some && !crate::text::blank(configured->0@) {
        r == Ok::<String, String>(configured->0)
    } else {
        match first_available(available, 0) {
            Some(name) => r is Ok && r->Ok_0@ == name,
            None => r is Err && r->Err_0@ == no_editor_text(),
        }
    }
}

proof fn lemma_first_available(available: Seq<Seq<char>>, i: int)
    requires
        0 <= i <= FALLBACK_COUNT,
    ensures
        match first_available(available, i) {
            Some(name) => exists|k: int|
                i <= k < FALLBACK_COUNT && name == #[trigger] fallback_name(k) && available.contains(name) && forall|j: int|
                    i <= j < k ==> !available.contains(#[trigger] fallback_name(j)),
            None => forall|j: int| i <= j < FALLBACK_COUNT ==> !available.contains(#[trigger] fallback_name(j)),
        },
    decreases FALLBACK_COUNT - i,
{
    if i < FALLBACK_COUNT {
        lemma_first_available(available, i + 1);
        if !available.contains(fallback_name(i)) && first_available(available, i) is Some {
            let name = first_available(available, i)->0;
            let k = choose|k: int|
                i + 1 <= k < FALLBACK_COUNT && name == #[trigger] fallback_name(k) && available.contains(name)
                    && forall|j: int| i + 1 <= j < k ==> !available.contains(#[trigger] fallback_name(j));
            assert(name == fallback_name(k));
        } else if available.contains(fallback_name(i)) {
            assert(first_available(available, i) == Some(fallback_name(i)));
        }
    }
}

/// The editor that is asked for comes before the one that is set, and that before any that is
/// found; one that is only white space is none. Of those that are found the first in the order of
/// preference is used, and where none is there, that is said.
pub proof fn law_the_editor_that_was_asked_for(
    explicit: Option<String>,
    configured: Option<String>,
    available: Seq<Seq<char>>,
    r: Result<String, String>,
)
    requires
        is_choice(explicit, configured, available, r),
    ensures
        (explicit matches Some(e) && !crate::text::blank(e@)) ==> r == Ok::<String, String>(explicit->0),
        (explicit matches Some(e) ==> crate::text::blank(e@)) && (configured matches Some(c) && !crate::text::blank(c@))
            ==> r == Ok::<String, String>(configured->0),
        (explicit matches Some(e) ==> crate::text::blank(e@)) && (configured matches Some(c) ==> crate::text::blank(c@))
            ==> {
            &&& r matches Ok(name) ==> available.contains(name@) && exists|k: int|
                0 <= k < 8 && name@ == #[trigger] fallback_name(k) && forall|j: int|
                    0 <= j < k ==> !available.contains(#[trigger] fallback_name(j))
            &&& r is Err <==> forall|j: int| 0 <= j < 8 ==> !available.contains(#[trigger] fallback_name(j))
        },
        fallback_name(0) == "editor"@ && fallback_name(1) == "sensible-editor"@ && fallback_name(2) == "nvim"@,
        fallback_name(3) == "vim"@ && fallback_name(4) == "vi"@ && fallback_name(5) == "nano"@,
        fallback_name(6) == "micro"@ && fallback_name(7) == "hx"@,
{
    lemma_first_available(available, 0);
}

/// The editor to use: the one asked for, or else the configured one, or else the first fallback
/// of which `available` says that it can be run.
pub fn resolve(explicit: Option<String>, configured: Option<String>, available: &Vec<String>) -> (r: Result<
    String,
    String,
>)
    ensures
        ({
            let usable = |v: Option<String>| v is Some && !crate::text::blank(v->0@);
            if usable(explicit) {
                r == Ok::<String, String>(explicit->0)
            } else if usable(configured) {
                r == Ok::<String, String>(configured->0)
            } else {
                match first_available(crate::text::views(available@), 0) {
                    Some(name) => r is Ok && r->Ok_0@ == name,
                    None => r is Err && r->Err_0@ == no_editor_text(),
                }
            }
        }),
        is_choice(explicit, configured, crate::text::views(available@), r),
{
    match nonempty(explicit) {
        Some(e) => {
            return Ok(e);
        },
        None => {},
    }
    match nonempty(configured) {
        Some(e) => {
            return Ok(e);
        },
        None => {},
    }
    let ghost names = crate::text::views(available@);
    let mut i: usize = 0;
    while i < FALLBACK_COUNT
        invariant
            i <= FALLBACK_COUNT,
            names == crate::text::views(available@),
            first_available(names, 0) == first_available(names, i as int),
            explicit is None || crate::text::blank(explicit->0@),
            configured is None || crate::text::blank(configured->0@),
        decreases FALLBACK_COUNT - i,
    {
        let name = fallback_editor(i);
        let mut k: usize = 0;
        while k < available.len()
            invariant
                k <= available@.len(),
                i < FALLBACK_COUNT,
                names == crate::text::views(available@),
                name@ == fallback_name(i as int),
                first_available(names, 0) == first_available(names, i as int),
                forall|j: int| 0 <= j < k ==> names[j] != name@,
                explicit is None || crate::text::blank(explicit->0@),
                configured is None || crate::text::blank(configured->0@),
            decreases available@.len() - k,
        {
            assert(names[k as int] == available@[k as int]@);
            if same(available[k].as_str(), name) {
                assert(names.contains(name@));
                return Ok(name.to_owned());
            }
            k += 1;
        }
        i += 1;
    }
    Err(
        "no editor available; use -e/--editor, set EDITOR, or install one of: editor, sensible-editor, nvim, vim, vi, nano, micro, hx".to_owned(),
    )
}

/// What the shell is told to run.
pub fn run(editor: &str, path: &str) -> (r: String)
    ensures
        r@ == "exec "@ + editor@ + " "@ + quoted(path@),
{
    let shown = shell_quote(path);
    cat4("exec ", editor, " ", shown.as_str())
}

/// How an editor that has ended is judged. `code` is its exit status, where it was not ended by a
/// signal.
pub fn require_success(success: bool, code: Option<i32>) -> (r: Result<(), String>)
    ensures
        match r {
            Ok(()) => success,
            Err(e) => !success && e@ == (match code {
                Some(c) => "external editor exited with status "@ + integer_form(c as int),
                None => "external editor terminated by signal"@,
            }),
        },
{
    if success {
        return Ok(());
    }
    match code {
        Some(c) => {
            let n = integer_text(c);
            Err(cat2("external editor exited with status ", n.as_str()))
        },
        None => Err("external editor terminated by signal".to_owned()),
    }
}

} // verus!
