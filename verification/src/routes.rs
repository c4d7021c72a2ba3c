//! The control surface's decisions: what each operation answers, what it
//! changes in the registry, which task is spawned and which frame is
//! broadcast. The HTTP plumbing around these functions only extracts the
//! `url` query parameter and the body, and performs the effects.

use vstd::prelude::*;
use crate::codec::{serialize, spec_serialize};
use crate::jsontext::{check_json, json_valid};
use crate::record::UrlValue;
use crate::registry::{
    delete_model, find_idx, insert_model, EntryV, RecordV, Registry,
};
use crate::response::ApiResponse;
use crate::status::Status;
use crate::urlcheck::{normalize_url, spec_norm_url, spec_valid_url};

verus! {

/// What an insert or update asks of its surroundings, besides the answer:
/// spawn a health-checker task, and broadcast an event frame.
pub struct UpdateOutcome {
    pub response: ApiResponse,
    pub spawn: Option<String>,
    pub event: Option<String>,
}

/// The data a request body denotes: `null` for an empty body, the body
/// itself when it is well-formed JSON.
pub open spec fn spec_body_data(body: Seq<char>) -> Seq<char> {
    if body.len() == 0 {
        "null"@
    } else {
        body
    }
}

/// Insert or update a URL. A missing parameter, a text that is not an
/// acceptable URL, or a body that is not JSON are caller errors and change
/// nothing. Otherwise the registry upsert runs: a fresh key installs a
/// healthy record, spawns a task for the normalised URL and broadcasts an
/// initial frame; an existing key only has its data replaced, with no task
/// and no frame. The answer carries the resulting record, serialized.
pub fn update_url(reg: &mut Registry, url_param: Option<&String>, body: &String) -> (r:
    UpdateOutcome)
    requires
        old(reg).wf(),
    ensures
        final(reg).wf(),
        ({
            let unchanged = final(reg).model() == old(reg).model();
            match url_param {
                None => {
                    &&& unchanged
                    &&& r.response is BadRequest
                    &&& r.spawn is None
                    &&& r.event is None
                },
                Some(q) => {
                    if !spec_valid_url(q@) {
                        &&& unchanged
                        &&& r.response is BadRequest
                        &&& r.spawn is None
                        &&& r.event is None
                    } else if body@.len() > 0 && !json_valid(body@) {
                        &&& unchanged
                        &&& r.response is BadRequest
                        &&& r.spawn is None
                        &&& r.event is None
                    } else {
                        let u = spec_norm_url(q@);
                        let fresh = find_idx(old(reg).model(), u) == -1;
                        let m1 = insert_model(old(reg).model(), u, spec_body_data(body@));
                        let stored = m1[find_idx(m1, u)].value;
                        &&& final(reg).model() == m1
                        &&& (r.response matches ApiResponse::Success(b) && b@ == spec_serialize(
                            stored,
                        ))
                        &&& (if fresh {
                            &&& (r.spawn matches Some(su) && su@ == u)
                            &&& (r.event matches Some(f) && f@ == spec_serialize(
                                RecordV { url: Some(u), ..stored },
                            ))
                        } else {
                            r.spawn is None && r.event is None
                        })
                    }
                },
            }
        }),
{
    let q = match url_param {
        Some(q) => q,
        None => {
            return UpdateOutcome {
                response: ApiResponse::BadRequest("missing url parameter".to_owned()),
                spawn: None,
                event: None,
            };
        },
    };
    let norm = match normalize_url(q.as_str()) {
        Some(n) => n,
        None => {
            return UpdateOutcome {
                response: ApiResponse::BadRequest(
                    "Invalid url, must be an http/s url".to_owned(),
                ),
                spawn: None,
                event: None,
            };
        },
    };
    let data: String;
    if body.as_str().is_empty() {
        data = "null".to_owned();
    } else if check_json(body.as_str()) {
        data = body.clone();
    } else {
        return UpdateOutcome {
            response: ApiResponse::BadRequest("invalid json body".to_owned()),
            spawn: None,
            event: None,
        };
    }
    let (value, spawned) = reg.insert(&norm, data);
    let response = ApiResponse::Success(serialize(&value));
    if spawned {
        let frame = serialize(&value.with_url(&norm));
        UpdateOutcome { response, spawn: Some(norm), event: Some(frame) }
    } else {
        UpdateOutcome { response, spawn: None, event: None }
    }
}

/// Read a URL's record. A missing or unacceptable parameter is a caller
/// error; an unregistered URL answers not-found; otherwise the persisted
/// record, serialized.
pub fn read_url(reg: &Registry, url_param: Option<&String>) -> (r: ApiResponse)
    ensures
        match url_param {
            None => r is BadRequest,
            Some(q) => {
                if !spec_valid_url(q@) {
                    r is BadRequest
                } else {
                    let u = spec_norm_url(q@);
                    let i = find_idx(reg.model(), u);
                    if i >= 0 {
                        r matches ApiResponse::Success(b) && b@ == spec_serialize(
                            reg.model()[i].value,
                        )
                    } else {
                        r is NotFound
                    }
                }
            },
        },
{
    let q = match url_param {
        Some(q) => q,
        None => {
            return ApiResponse::BadRequest("missing url parameter".to_owned());
        },
    };
    let norm = match normalize_url(q.as_str()) {
        Some(n) => n,
        None => {
            return ApiResponse::BadRequest("Invalid url, must be an http/s url".to_owned());
        },
    };
    match reg.read(&norm) {
        Some(v) => ApiResponse::Success(serialize(&v)),
        None => ApiResponse::NotFound,
    }
}

/// What a delete asks besides its answer: the final `Removed` frame.
pub struct DeleteOutcome {
    pub response: ApiResponse,
    pub event: Option<String>,
}

/// Remove a URL. A missing or unacceptable parameter is a caller error; an
/// unregistered URL answers not-found; otherwise the entry is removed, the
/// answer carries the removed record as it was stored, and a final frame
/// with status `Removed` and the URL attached is broadcast. The running
/// task sees the absent key on its next iteration and exits.
pub fn delete_url(reg: &mut Registry, url_param: Option<&String>) -> (r: DeleteOutcome)
    requires
        old(reg).wf(),
    ensures
        final(reg).wf(),
        ({
            let unchanged = final(reg).model() == old(reg).model();
            match url_param {
                None => unchanged && r.response is BadRequest && r.event is None,
                Some(q) => {
                    if !spec_valid_url(q@) {
                        &&& unchanged
                        &&& r.response is BadRequest
                        &&& r.event is None
                    } else {
                        let u = spec_norm_url(q@);
                        let i = find_idx(old(reg).model(), u);
                        &&& final(reg).model() == delete_model(old(reg).model(), u)
                        &&& (if i >= 0 {
                            let v = old(reg).model()[i].value;
                            &&& (r.response matches ApiResponse::Success(b) && b@
                                == spec_serialize(v))
                            &&& (r.event matches Some(f) && f@ == spec_serialize(
                                RecordV { url: Some(u), status: Status::Removed, ..v },
                            ))
                        } else {
                            r.response is NotFound && r.event is None
                        })
                    }
                },
            }
        }),
{
    let q = match url_param {
        Some(q) => q,
        None => {
            return DeleteOutcome {
                response: ApiResponse::BadRequest("missing url parameter".to_owned()),
                event: None,
            };
        },
    };
    let norm = match normalize_url(q.as_str()) {
        Some(n) => n,
        None => {
            return DeleteOutcome {
                response: ApiResponse::BadRequest(
                    "Invalid url, must be an http/s url".to_owned(),
                ),
                event: None,
            };
        },
    };
    match reg.delete(&norm) {
        Some(v) => {
            let response = ApiResponse::Success(serialize(&v));
            let mut removed = v;
            removed.status = Status::Removed;
            let frame = serialize(&removed.with_url(&norm));
            DeleteOutcome { response, event: Some(frame) }
        },
        None => DeleteOutcome { response: ApiResponse::NotFound, event: None },
    }
}

/// The serialized records of the registry, joined as a JSON array, each
/// with its URL attached.
pub open spec fn spec_list_body(s: Seq<EntryV>) -> Seq<char>
    decreases s.len(),
{
    if s.len() == 0 {
        Seq::<char>::empty()
    } else if s.len() == 1 {
        spec_serialize(RecordV { url: Some(s[0].url), ..s[0].value })
    } else {
        spec_list_body(s.drop_last()) + ","@ + spec_serialize(
            RecordV { url: Some(s.last().url), ..s.last().value },
        )
    }
}

/// List every record, with its URL attached, as a JSON array.
pub fn get_all_urls(reg: &Registry) -> (r: ApiResponse)
    ensures
        r matches ApiResponse::Success(b) && b@ == "["@ + spec_list_body(reg.model()) + "]"@,
{
    let values = reg.list();
    let mut body = "[".to_owned();
    let mut i: usize = 0;
    proof {
        assert(spec_list_body(reg.model().take(0)) =~= Seq::<char>::empty());
        assert(body@ =~= "["@ + spec_list_body(reg.model().take(0)));
    }
    while i < values.len()
        invariant
            i <= values@.len(),
            values@.len() == reg.model().len(),
            forall|j: int| 0 <= j < values@.len() ==> #[trigger] values@[j]@ == (RecordV {
                url: Some(reg.model()[j].url),
                ..reg.model()[j].value
            }),
            body@ == "["@ + spec_list_body(reg.model().take(i as int)),
        decreases values@.len() - i,
    {
        if i > 0 {
            body.append(",");
        }
        body.append(serialize(&values[i]).as_str());
        i = i + 1;
        proof {
            let m = reg.model();
            assert(m.take(i as int).drop_last() =~= m.take(i - 1));
            assert(m.take(i as int).last() == m[i - 1]);
        }
    }
    body.append("]");
    proof {
        assert(reg.model().take(reg.model().len() as int) =~= reg.model());
    }
    ApiResponse::Success(body)
}

} // verus!
