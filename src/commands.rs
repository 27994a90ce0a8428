//! The front-end's own use of the core: which engine notifications it
//! handles, the request that opens a view, and the focused view.

use crate::json::{object_of, string_object};
use crate::message::Outbound;
use crate::rpc::{Core, SendError};
use vstd::prelude::*;

verus! {

/// The notification methods the front-end knows.
pub open spec fn handled_method(m: Seq<char>) -> bool {
    ||| m == "update"@
    ||| m == "scroll_to"@
    ||| m == "available_themes"@
    ||| m == "available_plugins"@
    ||| m == "available_languages"@
    ||| m == "config_changed"@
    ||| m == "language_changed"@
}

/// Whether a notification from the engine is one the front-end handles.
pub fn is_handled_method(method: &str) -> (r: bool)
    ensures
        r == handled_method(method@),
{
    let m = method.to_owned();
    proof {
        reveal_strlit("update");
        reveal_strlit("scroll_to");
        reveal_strlit("available_themes");
        reveal_strlit("available_plugins");
        reveal_strlit("available_languages");
        reveal_strlit("config_changed");
        reveal_strlit("language_changed");
    }
    m == "update".to_owned() || m == "scroll_to".to_owned() || m == "available_themes".to_owned()
        || m == "available_plugins".to_owned() || m == "available_languages".to_owned()
        || m == "config_changed".to_owned() || m == "language_changed".to_owned()
}

/// The parameters of a `new_view` request: the file to open, if any.
pub open spec fn new_view_fields(filename: Option<String>) -> Seq<(Seq<char>, Seq<char>)> {
    match filename {
        Some(f) => seq![("file_path"@, f@)],
        None => Seq::empty(),
    }
}

/// Asks the engine for a new view, on the file `filename` if one is given.
/// The reply carries the new view's identifier.
pub fn req_new_view<C>(core: &mut Core<C>, filename: Option<String>, continuation: C) -> (r: Result<
    Outbound,
    SendError<C>,
>)
    requires
        old(core).wf(),
    ensures
        final(core).wf(),
        old(core).is_closed() ==> r == Err::<Outbound, SendError<C>>(
            SendError::Closed(continuation),
        ) && *final(core) == *old(core),
        !old(core).is_closed() && old(core).next_id() == u64::MAX ==> r == Err::<
            Outbound,
            SendError<C>,
        >(SendError::IdsExhausted(continuation)) && *final(core) == *old(core),
        !old(core).is_closed() && old(core).next_id() < u64::MAX ==> {
            &&& match r {
                Ok(Outbound::Request { id, method, params }) => {
                    &&& id == old(core).next_id()
                    &&& method@ == "new_view"@
                    &&& params == object_of(new_view_fields(filename))
                },
                _ => false,
            }
            &&& final(core).table() == old(core).table().insert(old(core).next_id(), continuation)
            &&& final(core).next_id() == old(core).next_id() + 1
        },
{
    let mut fields: Vec<(String, String)> = Vec::new();
    match filename {
        Some(f) => {
            fields.push(("file_path".to_owned(), f));
        },
        None => {},
    }
    let params = string_object(fields);
    proof {
        reveal_strlit("file_path");
        assert(fields@.map_values(|p: (String, String)| (p.0@, p.1@)) =~= new_view_fields(filename));
    }
    let method = "new_view".to_owned();
    proof {
        reveal_strlit("new_view");
    }
    core.send_request(method, params, continuation)
}

/// Which view of the engine has the focus, once one has been opened.
pub struct AppState {
    pub focused: Option<String>,
}

impl AppState {
    /// No view yet.
    pub fn new() -> (r: AppState)
        ensures
            r.focused is None,
    {
        AppState { focused: None }
    }

    /// The focused view; there must be one.
    pub fn get_focused(&self) -> (r: String)
        requires
            self.focused is Some,
        ensures
            Some(r) == self.focused,
    {
        match &self.focused {
            Some(v) => v.clone(),
            None => String::new(),
        }
    }

    /// Records the view that the engine just opened as the focused one.
    pub fn set_focused(&mut self, view_id: String)
        ensures
            final(self).focused == Some(view_id),
    {
        self.focused = Some(view_id);
    }
}

} // verus!
