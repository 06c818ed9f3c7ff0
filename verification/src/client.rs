//! What a client asks the manager, and what it makes of the answers.
use crate::paths::{absolute, is_absolute};
use crate::protocol::{Request, Response, ServiceInfo, Target};
use crate::text::{cat2, cat4, same, split, split_at_char, views};
use vstd::prelude::*;
use vstd::string::StringExecFns;

verus! {

/// The names in a path. Empty ones and single dots do not count, except a dot that a relative
/// path begins with.
pub open spec fn names_in(pieces: Seq<Seq<char>>, rooted: bool) -> Seq<Seq<char>>
    decreases pieces.len(),
{
    if pieces.len() == 0 {
        Seq::empty()
    } else {
        let front = names_in(pieces.drop_last(), rooted);
        let last = pieces.last();
        if last.len() == 0 || (last == "."@ && (rooted || pieces.len() > 1)) {
            front
        } else {
            front.push(last)
        }
    }
}

/// Whether two paths are written alike, name by name.
pub open spec fn same_path(a: Seq<char>, b: Seq<char>) -> bool {
    &&& absolute(a) == absolute(b)
    &&& names_in(split(a, '/'), absolute(a)) == names_in(split(b, '/'), absolute(b))
}

pub(crate) fn path_names(path: &str) -> (r: Vec<String>)
    ensures
        views(r@) == names_in(split(path@, '/'), absolute(path@)),
{
    let rooted = is_absolute(path);
    let pieces = split_at_char(path, '/');
    let ghost all = views(pieces@);
    let mut out: Vec<String> = Vec::new();
    let mut i: usize = 0;
    assert(views(out@) =~= names_in(all.take(0), rooted));
    while i < pieces.len()
        invariant
            i <= pieces@.len(),
            all == views(pieces@),
            views(out@) == names_in(all.take(i as int), rooted),
        decreases pieces@.len() - i,
    {
        let ghost before = out@;
        assert(all.take(i + 1).drop_last() =~= all.take(i as int));
        assert(all.take(i + 1).last() == pieces@[i as int]@);
        let piece = pieces[i].as_str();
        let skip = piece.is_empty() || (same(piece, ".") && (rooted || i > 0));
        if !skip {
            out.push(pieces[i].clone());
            assert(views(out@) =~= views(before).push(pieces@[i as int]@));
        }
        i += 1;
    }
    assert(all.take(i as int) =~= all);
    out
}

pub fn paths_match(a: &str, b: &str) -> (r: bool)
    ensures
        r == same_path(a@, b@),
{
    if is_absolute(a) != is_absolute(b) {
        return false;
    }
    let x = path_names(a);
    let y = path_names(b);
    assert(views(x@).len() == x@.len());
    assert(views(y@).len() == y@.len());
    if x.len() != y.len() {
        return false;
    }
    let mut i: usize = 0;
    while i < x.len()
        invariant
            i <= x@.len(),
            x@.len() == y@.len(),
            views(x@) == names_in(split(a@, '/'), absolute(a@)),
            views(y@) == names_in(split(b@, '/'), absolute(b@)),
            forall|k: int| 0 <= k < i ==> #[trigger] views(x@)[k] == views(y@)[k],
        decreases x@.len() - i,
    {
        if !same(x[i].as_str(), y[i].as_str()) {
            assert(views(x@)[i as int] != views(y@)[i as int]);
            return false;
        }
        i += 1;
    }
    assert(views(x@) =~= views(y@));
    true
}

/// The names of the services that run in a directory, in the order of the list.
pub open spec fn names_at(services: Seq<ServiceInfo>, directory: Seq<char>) -> Seq<Seq<char>>
    decreases services.len(),
{
    if services.len() == 0 {
        Seq::empty()
    } else {
        let front = names_at(services.drop_last(), directory);
        if same_path(services.last().directory@, directory) {
            front.push(services.last().name@)
        } else {
            front
        }
    }
}

/// Names with a comma and a space between them.
pub open spec fn listed(names: Seq<Seq<char>>) -> Seq<char>
    decreases names.len(),
{
    if names.len() == 0 {
        Seq::empty()
    } else if names.len() == 1 {
        names[0]
    } else {
        listed(names.drop_last()) + ", "@ + names.last()
    }
}

fn list_names(names: &Vec<String>) -> (r: String)
    ensures
        r@ == listed(views(names@)),
{
    let ghost all = views(names@);
    let mut out = String::new();
    let mut i: usize = 0;
    assert(out@ =~= listed(all.take(0)));
    while i < names.len()
        invariant
            i <= names@.len(),
            all == views(names@),
            out@ == listed(all.take(i as int)),
        decreases names@.len() - i,
    {
        assert(all.take(i + 1).drop_last() =~= all.take(i as int));
        assert(all.take(i + 1).last() == names@[i as int]@);
        if i > 0 {
            out.append(", ");
        }
        let ghost before = out@;
        out.append(names[i].as_str());
        if i == 0 {
            assert(out@ =~= names@[0]@);
        }
        i += 1;
    }
    assert(all.take(i as int) =~= all);
    out
}

/// The one name among those that match, or why there is none.
pub open spec fn only_name(names: Seq<Seq<char>>, directory: Seq<char>) -> Result<Seq<char>, Seq<char>> {
    if names.len() == 0 {
        Err("no enabled service for current directory "@ + directory)
    } else if names.len() == 1 {
        Ok(names[0])
    } else {
        Err(
            "several services match current directory "@ + directory + ": "@ + listed(names)
                + "; specify a service name"@,
        )
    }
}

/// The one name among those that match a directory. Where several do, all are reported.
pub fn unique_service_name_for_directory(names: &Vec<String>, directory: &str) -> (r: Result<String, String>)
    ensures
        match only_name(views(names@), directory@) {
            Ok(n) => r is Ok && r->Ok_0@ == n,
            Err(e) => r is Err && r->Err_0@ == e,
        },
{
    assert(views(names@).len() == names@.len());
    if names.len() == 0 {
        return Err(cat2("no enabled service for current directory ", directory));
    }
    if names.len() == 1 {
        return Ok(names[0].clone());
    }
    let list = list_names(names);
    let mut text = cat4(
        "several services match current directory ",
        directory,
        ": ",
        list.as_str(),
    );
    text.append("; specify a service name");
    Err(text)
}

proof fn lemma_names_at(services: Seq<ServiceInfo>, directory: Seq<char>)
    ensures
        forall|n: Seq<char>|
            #[trigger] names_at(services, directory).contains(n) <==> exists|i: int|
                0 <= i < services.len() && (#[trigger] services[i]).name@ == n && same_path(
                    services[i].directory@,
                    directory,
                ),
    decreases services.len(),
{
    if services.len() > 0 {
        let front = services.drop_last();
        let names = names_at(services, directory);
        let before = names_at(front, directory);
        lemma_names_at(front, directory);
        assert forall|n: Seq<char>| #[trigger] names.contains(n) <==> exists|i: int|
            0 <= i < services.len() && (#[trigger] services[i]).name@ == n && same_path(
                services[i].directory@,
                directory,
            ) by {
            if names.contains(n) {
                let k = names.index_of(n);
                if k < before.len() {
                    assert(before[k] == n);
                    assert(before.contains(n));
                    let i = choose|i: int|
                        0 <= i < front.len() && (#[trigger] front[i]).name@ == n && same_path(
                            front[i].directory@,
                            directory,
                        );
                    assert(services[i] == front[i]);
                } else {
                    assert(services[services.len() - 1].name@ == n);
                }
            }
            if exists|i: int|
                0 <= i < services.len() && (#[trigger] services[i]).name@ == n && same_path(
                    services[i].directory@,
                    directory,
                ) {
                let i = choose|i: int|
                    0 <= i < services.len() && (#[trigger] services[i]).name@ == n && same_path(
                        services[i].directory@,
                        directory,
                    );
                if i < front.len() {
                    assert(front[i] == services[i]);
                    assert(before.contains(n));
                    let k = before.index_of(n);
                    assert(names[k] == n);
                } else {
                    assert(names.last() == n);
                }
            }
        }
    }
}

proof fn lemma_one_of_several(services: Seq<ServiceInfo>, directory: Seq<char>, i: int, j: int)
    requires
        0 <= i < j < services.len(),
        same_path(services[i].directory@, directory),
        same_path(services[j].directory@, directory),
    ensures
        names_at(services, directory).len() >= 2,
    decreases services.len(),
{
    let front = services.drop_last();
    if j < front.len() {
        assert(front[i] == services[i] && front[j] == services[j]);
        lemma_one_of_several(front, directory, i, j);
    } else {
        assert(front[i] == services[i]);
        lemma_names_at(front, directory);
        assert(names_at(front, directory).contains(services[i].name@));
    }
}

/// The service of a directory is the one that runs there. Where none does or several do, there is
/// no such service, and it is not guessed.
pub proof fn law_the_service_of_a_directory(services: Seq<ServiceInfo>, directory: Seq<char>, i: int)
    ensures
        only_name(names_at(services, directory), directory) matches Ok(n) ==> exists|k: int|
            0 <= k < services.len() && (#[trigger] services[k]).name@ == n && same_path(
                services[k].directory@,
                directory,
            ),
        0 <= i < services.len() && same_path(services[i].directory@, directory) && (forall|j: int|
            0 <= j < services.len() && j != i ==> !same_path((#[trigger] services[j]).directory@, directory))
            ==> only_name(names_at(services, directory), directory) == Ok::<Seq<char>, Seq<char>>(
            services[i].name@,
        ),
        (forall|j: int| 0 <= j < services.len() ==> !same_path((#[trigger] services[j]).directory@, directory))
            ==> only_name(names_at(services, directory), directory) is Err,
        forall|j: int, k: int|
            0 <= j < k < services.len() && same_path((#[trigger] services[j]).directory@, directory) && same_path(
                (#[trigger] services[k]).directory@,
                directory,
            ) ==> only_name(names_at(services, directory), directory) is Err,
{
    let names = names_at(services, directory);
    lemma_names_at(services, directory);
    if names.len() == 1 {
        assert(names.contains(names[0]));
    }
    assert forall|j: int, k: int|
        0 <= j < k < services.len() && same_path((#[trigger] services[j]).directory@, directory) && same_path(
            (#[trigger] services[k]).directory@,
            directory,
        ) implies only_name(names, directory) is Err by {
        lemma_one_of_several(services, directory, j, k);
    }
    if forall|j: int| 0 <= j < services.len() ==> !same_path((#[trigger] services[j]).directory@, directory) {
        if names.len() > 0 {
            assert(names.contains(names[0]));
        }
    }
    if 0 <= i < services.len() && same_path(services[i].directory@, directory) && (forall|j: int|
        0 <= j < services.len() && j != i ==> !same_path((#[trigger] services[j]).directory@, directory)) {
        lemma_only_one(services, directory, i);
    }
}

proof fn lemma_only_one(services: Seq<ServiceInfo>, directory: Seq<char>, i: int)
    requires
        0 <= i < services.len(),
        same_path(services[i].directory@, directory),
        forall|j: int|
            0 <= j < services.len() && j != i ==> !same_path((#[trigger] services[j]).directory@, directory),
    ensures
        names_at(services, directory) == seq![services[i].name@],
    decreases services.len(),
{
    let front = services.drop_last();
    assert forall|j: int| 0 <= j < front.len() implies front[j] == services[j] by {}
    if i < front.len() {
        assert forall|j: int| 0 <= j < front.len() && j != i implies !same_path(
            (#[trigger] front[j]).directory@,
            directory,
        ) by {
            assert(front[j] == services[j]);
        }
        lemma_only_one(front, directory, i);
        assert(!same_path(services[services.len() - 1].directory@, directory));
    } else {
        lemma_names_at(front, directory);
        let before = names_at(front, directory);
        if before.len() > 0 {
            assert(before.contains(before[0]));
            let k = choose|k: int|
                0 <= k < front.len() && (#[trigger] front[k]).name@ == before[0] && same_path(
                    front[k].directory@,
                    directory,
                );
            assert(services[k] == front[k]);
        }
        assert(before =~= Seq::<Seq<char>>::empty());
        assert(names_at(services, directory) =~= seq![services[i].name@]);
    }
}

/// The service that runs in a directory.
pub fn service_name_for_directory(services: &Vec<ServiceInfo>, directory: &str) -> (r: Result<String, String>)
    ensures
        match only_name(names_at(services@, directory@), directory@) {
            Ok(n) => r is Ok && r->Ok_0@ == n,
            Err(e) => r is Err && r->Err_0@ == e,
        },
{
    let mut names: Vec<String> = Vec::new();
    let mut i: usize = 0;
    assert(views(names@) =~= names_at(services@.take(0), directory@));
    while i < services.len()
        invariant
            i <= services@.len(),
            views(names@) == names_at(services@.take(i as int), directory@),
        decreases services@.len() - i,
    {
        let ghost before = names@;
        assert(services@.take(i + 1).drop_last() =~= services@.take(i as int));
        if paths_match(services[i].directory.as_str(), directory) {
            names.push(services[i].name.clone());
            assert(views(names@) =~= views(before).push(services@[i as int].name@));
        }
        i += 1;
    }
    assert(services@.take(i as int) =~= services@);
    unique_service_name_for_directory(&names, directory)
}

/// What a command is about: the service that is named, or the one in the current directory.
pub fn target(name: Option<String>, directory: &str) -> (r: Target)
    ensures
        match name {
            Some(n) => r == Target::Name(n),
            None => r matches Target::Directory(d) && d@ == directory@,
        },
{
    match name {
        Some(name) => Target::Name(name),
        None => Target::Directory(directory.to_owned()),
    }
}

/// What a command came to. `shown` is the answer as it is shown where it is not expected.
pub fn expect_ok(response: Response, shown: &str) -> (r: Result<(), String>)
    ensures
        match response {
            Response::Done => r is Ok,
            Response::Error { message } => r == Err::<(), String>(message),
            _ => r is Err && r->Err_0@ == "unexpected manager response: "@ + shown@,
        },
{
    match response {
        Response::Done => Ok(()),
        Response::Error { message } => Err(message),
        _ => Err(cat2("unexpected manager response: ", shown)),
    }
}

/// Why attaching is not possible: the service keeps failing.
#[derive(Debug)]
pub struct AttachUnavailable {
    pub name: String,
    pub recent_failures: u32,
    pub window_seconds: u64,
    pub latest_log: Option<String>,
}

#[derive(Debug)]
pub enum AttachFailure {
    Unavailable(AttachUnavailable),
    Message(String),
}

/// The token of a session, or why there is none.
pub fn accept_attach(response: Response, shown: &str) -> (r: Result<String, AttachFailure>)
    ensures
        match response {
            Response::Attach { token } => r == Ok::<String, AttachFailure>(token),
            Response::AttachUnavailable { name, recent_failures, window_seconds, latest_log } => r
                == Err::<String, AttachFailure>(
                AttachFailure::Unavailable(
                    AttachUnavailable { name, recent_failures, window_seconds, latest_log },
                ),
            ),
            Response::Error { message } => r is Err && (r->Err_0 matches AttachFailure::Message(m)
                && m@ == "attach: "@ + message@),
            _ => r is Err && (r->Err_0 matches AttachFailure::Message(m) && m@
                == "unexpected attach response: "@ + shown@),
        },
{
    match response {
        Response::Attach { token } => Ok(token),
        Response::AttachUnavailable { name, recent_failures, window_seconds, latest_log } => Err(
            AttachFailure::Unavailable(
                AttachUnavailable { name, recent_failures, window_seconds, latest_log },
            ),
        ),
        Response::Error { message } => Err(
            AttachFailure::Message(cat2("attach: ", message.as_str())),
        ),
        _ => Err(AttachFailure::Message(cat2("unexpected attach response: ", shown))),
    }
}

/// The service of the current directory, from the manager's list.
pub fn current_service(response: Response, directory: &str) -> (r: Result<String, String>)
    ensures
        match response {
            Response::Services { services } => match only_name(
                names_at(services@, directory@),
                directory@,
            ) {
                Ok(n) => r is Ok && r->Ok_0@ == n,
                Err(e) => r is Err && r->Err_0@ == e,
            },
            _ => r is Err && r->Err_0@
                == "unexpected manager response while resolving current service"@,
        },
{
    match response {
        Response::Services { services } => service_name_for_directory(&services, directory),
        _ => Err("unexpected manager response while resolving current service".to_owned()),
    }
}

/// What asks for another size.
pub fn resize_request(name: &str, token: &str, cols: u16, rows: u16) -> (r: Request)
    ensures
        r matches Request::Resize { name: n, token: t, cols: c, rows: w } && n@ == name@ && t@
            == token@ && c == cols && w == rows,
{
    Request::Resize { name: name.to_owned(), token: token.to_owned(), cols, rows }
}

/// What came of asking for another size.
pub fn accept_resize(response: Response, shown: &str) -> (r: Result<(), String>)
    ensures
        match response {
            Response::Done => r is Ok,
            Response::Error { message } => r is Err && r->Err_0@ == "resize: "@ + message@,
            _ => r is Err && r->Err_0@ == "unexpected resize response: "@ + shown@,
        },
{
    match response {
        Response::Done => Ok(()),
        Response::Error { message } => Err(cat2("resize: ", message.as_str())),
        _ => Err(cat2("unexpected resize response: ", shown)),
    }
}

} // verus!
