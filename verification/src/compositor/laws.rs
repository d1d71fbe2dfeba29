//! Laws of the protocol engine.

use crate::compositor::{
    event, fresh_objects, global_events, interface_at, output_info, request_kind, standard_global,
    standard_globals, step, toplevel_configure_payload, RequestKind,
};
use crate::le::{lemma_le_u32_of_u32_le, u32_le, word_at};
use crate::wire::Record;
use vstd::prelude::*;

verus! {

/// The word at the front of a payload that starts with the octets of `x`.
pub proof fn lemma_first_word(x: u32, tail: Seq<u8>)
    ensures
        (u32_le(x) + tail).len() == 4 + tail.len(),
        word_at(u32_le(x) + tail, 0) == x,
{
    lemma_le_u32_of_u32_le(x, Seq::empty());
    assert((u32_le(x) + tail).subrange(0, 4) =~= u32_le(x) + Seq::<u8>::empty());
}

/// The word at the end of a payload that ends with the octets of `x`.
pub proof fn lemma_last_word(head: Seq<u8>, x: u32)
    ensures
        (head + u32_le(x)).len() == head.len() + 4,
        word_at(head + u32_le(x), head.len() as int) == x,
{
    lemma_le_u32_of_u32_le(x, Seq::empty());
    assert((head + u32_le(x)).subrange(head.len() as int, head.len() as int + 4) =~= u32_le(x)
        + Seq::<u8>::empty());
}

/// The interface names that the engine dispatches on are pairwise different,
/// and none of them is `"unknown"`.
pub proof fn lemma_request_kinds()
    ensures
        forall|op: u16| request_kind("unknown"@, op) == RequestKind::Unhandled,
        request_kind("wl_display"@, 0) == RequestKind::Sync,
        request_kind("wl_display"@, 1) == RequestKind::GetRegistry,
        request_kind("wl_registry"@, 0) == RequestKind::Bind,
        request_kind("wl_compositor"@, 0) == RequestKind::CreateSurface,
        request_kind("wl_shm"@, 0) == RequestKind::CreatePool,
        request_kind("xdg_wm_base"@, 2) == RequestKind::GetXdgSurface,
        request_kind("xdg_surface"@, 1) == RequestKind::GetToplevel,
        request_kind("xdg_surface"@, 4) == RequestKind::AckConfigure,
        request_kind("wl_surface"@, 6) == RequestKind::Commit,
        forall|op: u16| op != 6 ==> request_kind("wl_surface"@, op) == RequestKind::Unhandled,
{
    reveal_strlit("unknown");
    reveal_strlit("wl_display");
    reveal_strlit("wl_registry");
    reveal_strlit("wl_compositor");
    reveal_strlit("wl_shm");
    reveal_strlit("xdg_wm_base");
    reveal_strlit("xdg_surface");
    reveal_strlit("wl_surface");
    assert("unknown"@.len() == 7);
    assert("wl_display"@.len() == 10);
    assert("wl_registry"@.len() == 11);
    assert("wl_compositor"@.len() == 13);
    assert("wl_shm"@.len() == 6);
    assert("xdg_wm_base"@.len() == 11);
    assert("xdg_surface"@.len() == 11);
    assert("wl_surface"@.len() == 10);
    assert("wl_registry"@[0] != "xdg_surface"@[0]);
    assert("wl_registry"@[0] != "xdg_wm_base"@[0]);
    assert("xdg_wm_base"@[4] != "xdg_surface"@[4]);
    assert("wl_display"@[3] != "wl_surface"@[3]);
}

/// On a connection that has just started, `wl_display.get_registry` with the
/// new id `r` is answered by one record per advertised global: each on
/// object `r` with opcode 0, in the order of the advertisement. The id `r`
/// is then a registry.
pub proof fn law_get_registry(r: u32, tail: Seq<u8>)
    ensures
        ({
            let request = Record { object_id: 1, opcode: 1, payload: u32_le(r) + tail };
            let (objects, replies) = step(fresh_objects(), request);
            &&& replies == global_events(r, standard_globals())
            &&& replies.len() == standard_globals().len() == 9
            &&& forall|i: int|
                0 <= i < replies.len() ==> {
                    &&& (#[trigger] replies[i]).object_id == r
                    &&& replies[i].opcode == 0
                }
            &&& objects == fresh_objects().insert(r, "wl_registry"@)
        }),
{
    reveal(step);
    lemma_request_kinds();
    lemma_first_word(r, tail);
}

/// After `wl_display.get_registry` with the new id `r` on a connection that
/// has just started, `wl_registry.bind` on `r` with a name that selects
/// `wl_output` and the new id `x` is answered by exactly the four records
/// of the output: opcodes 0, 1, 3, 2 in that order, all on object `x`.
/// What lies between the name and the new id in the request is not read.
pub proof fn law_bind_output(r: u32, name: u32, between: Seq<u8>, x: u32)
    requires
        standard_global(name) is Some,
        standard_global(name).unwrap().interface == "wl_output"@,
    ensures
        ({
            let get_registry = Record { object_id: 1, opcode: 1, payload: u32_le(r) };
            let bind = Record {
                object_id: r,
                opcode: 0,
                payload: u32_le(name) + between + u32_le(x),
            };
            let replies = step(step(fresh_objects(), get_registry).0, bind).1;
            &&& replies == output_info(x)
            &&& replies.len() == 4
            &&& replies[0].opcode == 0
            &&& replies[1].opcode == 1
            &&& replies[2].opcode == 3
            &&& replies[3].opcode == 2
        }),
{
    reveal(step);
    lemma_request_kinds();
    lemma_first_word(r, Seq::empty());
    assert(u32_le(r) + Seq::<u8>::empty() =~= u32_le(r));
    let payload = u32_le(name) + between + u32_le(x);
    lemma_first_word(name, between + u32_le(x));
    assert(payload =~= u32_le(name) + (between + u32_le(x)));
    lemma_last_word(u32_le(name) + between, x);
}

/// With `c` a `wl_compositor` and `w` an `xdg_wm_base`: after
/// `create_surface` of `s` on `c` and `get_xdg_surface` of `x` for `s` on
/// `w`, `get_toplevel` of `t` on `x` is answered by two records, in this
/// order: the toplevel's configure on `t`, then the surface's configure with
/// serial 1 on `x`.
///
/// The one exception: a surface id that is the id of `w` rebinds `w`
/// itself, and `x` does not become an `xdg_surface`. The answer is then
/// given only if `x` was one before.
pub proof fn law_toplevel_configure(
    objects: Map<u32, Seq<char>>,
    c: u32,
    w: u32,
    s: u32,
    x: u32,
    t: u32,
)
    requires
        interface_at(objects, c) == "wl_compositor"@,
        interface_at(objects, w) == "xdg_wm_base"@,
    ensures
        ({
            let create_surface = Record { object_id: c, opcode: 0, payload: u32_le(s) };
            let get_xdg_surface = Record {
                object_id: w,
                opcode: 2,
                payload: u32_le(x) + u32_le(s),
            };
            let get_toplevel = Record { object_id: x, opcode: 1, payload: u32_le(t) };
            let after_surface = step(objects, create_surface).0;
            let after_xdg_surface = step(after_surface, get_xdg_surface).0;
            let answer = seq![
                event(t, 0, toplevel_configure_payload()),
                event(x, 0, u32_le(1)),
            ];
            step(after_xdg_surface, get_toplevel).1 == answer <==> s != w || (x != s
                && interface_at(objects, x) == "xdg_surface"@)
        }),
{
    reveal(step);
    lemma_request_kinds();
    reveal_strlit("unknown");
    reveal_strlit("wl_display");
    reveal_strlit("wl_compositor");
    reveal_strlit("xdg_wm_base");
    reveal_strlit("xdg_surface");
    lemma_first_word(s, Seq::empty());
    assert(u32_le(s) + Seq::<u8>::empty() =~= u32_le(s));
    lemma_first_word(x, u32_le(s));
    lemma_first_word(t, Seq::empty());
    assert(u32_le(t) + Seq::<u8>::empty() =~= u32_le(t));
    if s == w && !(x != s && interface_at(objects, x) == "xdg_surface"@) {
        let rebound = objects.insert(s, "wl_surface"@);
        let get_xdg_surface = Record { object_id: w, opcode: 2, payload: u32_le(x) + u32_le(s) };
        let get_toplevel = Record { object_id: x, opcode: 1, payload: u32_le(t) };
        assert(step(objects, Record { object_id: c, opcode: 0, payload: u32_le(s) }).0 == rebound);
        assert(interface_at(rebound, w) == "wl_surface"@);
        assert(step(rebound, get_xdg_surface).0 == rebound);
        assert(interface_at(rebound, x) != "xdg_surface"@);
        let replies = step(rebound, get_toplevel).1;
        assert(replies.len() == 0 || replies.len() == 9);
    }
}

/// `wl_display.sync` with the new id `c` is answered by exactly one record:
/// on object `c`, opcode 0, with the serial 1 as payload.
pub proof fn law_sync(objects: Map<u32, Seq<char>>, display: u32, c: u32, tail: Seq<u8>)
    requires
        interface_at(objects, display) == "wl_display"@,
    ensures
        step(objects, Record { object_id: display, opcode: 0, payload: u32_le(c) + tail }).1
            == seq![event(c, 0, u32_le(1))],
{
    reveal(step);
    lemma_request_kinds();
    lemma_first_word(c, tail);
}

/// A request on an id that is not bound changes nothing and gets no reply,
/// whatever its opcode and payload.
pub proof fn law_unbound_is_silent(objects: Map<u32, Seq<char>>, request: Record)
    requires
        !objects.contains_key(request.object_id),
    ensures
        step(objects, request) == (objects, Seq::<Record>::empty()),
{
    reveal(step);
    lemma_request_kinds();
}

/// No request unbinds an object: what is in the table stays in it.
pub proof fn law_objects_stay(objects: Map<u32, Seq<char>>, request: Record, id: u32)
    requires
        objects.contains_key(id),
    ensures
        step(objects, request).0.contains_key(id),
{
    reveal(step);
}

} // verus!
