//! The protocol engine.
//!
//! The engine keeps the table that says which interface each object id of
//! the connection implements, and answers each request with the events that
//! a client expects before it can show a window.

use crate::le::{get_u32_le, push_u32_le, u32_le, word_at};
use crate::text::same_text;
use crate::wire::opcodes::{
    compositor, display, registry, shm, surface, xdg_surface, xdg_wm_base,
};
use crate::wire::{batch_encoding, records, well_formed, Message, Record, WireEncoder};
use std::collections::HashMap;
use vstd::prelude::*;
use vstd::string::*;
use vstd::utf8::{encode_utf8, is_ascii_chars, is_ascii_chars_encode_utf8};

pub mod laws;

verus! {

broadcast use vstd::std_specs::hash::group_hash_axioms;

/// Hands out server-side object ids, starting after the display's.
pub struct ObjectAllocator {
    next_id: u32,
}

impl ObjectAllocator {
    /// The id that the next allocation returns.
    pub closed spec fn next(&self) -> u32 {
        self.next_id
    }

    /// An allocator whose first id is 2: 1 is the display.
    pub fn new() -> (a: ObjectAllocator)
        ensures
            a.next() == 2,
    {
        ObjectAllocator { next_id: 2 }
    }

    /// Returns a fresh id. The ids of one allocator never repeat, so the
    /// last id of the 32-bit space cannot be followed by another.
    pub fn allocate(&mut self) -> (id: u32)
        requires
            old(self).next() < u32::MAX,
        ensures
            id == old(self).next(),
            final(self).next() == old(self).next() + 1,
    {
        let id = self.next_id;
        self.next_id += 1;
        id
    }
}

impl Default for ObjectAllocator {
    fn default() -> (a: ObjectAllocator)
        ensures
            a.next() == 2,
    {
        ObjectAllocator::new()
    }
}

/// An advertised service.
#[derive(Debug, Clone)]
pub struct Global {
    pub name: u32,
    pub interface: String,
    pub version: u32,
}

/// An advertised service, with its interface name as text.
pub struct GlobalSpec {
    pub name: u32,
    pub interface: Seq<char>,
    pub version: u32,
}

impl View for Global {
    type V = GlobalSpec;

    open spec fn view(&self) -> GlobalSpec {
        GlobalSpec { name: self.name, interface: self.interface@, version: self.version }
    }
}

/// The advertisements of a list of globals, in order.
pub open spec fn global_specs(globals: Seq<Global>) -> Seq<GlobalSpec> {
    globals.map_values(|g: Global| g@)
}

/// The services that every connection is offered, in the order in which
/// they are announced. Their names count up from 1.
pub open spec fn standard_globals() -> Seq<GlobalSpec> {
    seq![
        GlobalSpec { name: 1, interface: "wl_compositor"@, version: 5 },
        GlobalSpec { name: 2, interface: "wl_subcompositor"@, version: 1 },
        GlobalSpec { name: 3, interface: "wl_shm"@, version: 1 },
        GlobalSpec { name: 4, interface: "wl_output"@, version: 4 },
        GlobalSpec { name: 5, interface: "wl_seat"@, version: 8 },
        GlobalSpec { name: 6, interface: "wl_data_device_manager"@, version: 3 },
        GlobalSpec { name: 7, interface: "xdg_wm_base"@, version: 5 },
        GlobalSpec { name: 8, interface: "wp_viewporter"@, version: 1 },
        GlobalSpec { name: 9, interface: "zwp_linux_dmabuf_v1"@, version: 4 },
    ]
}

/// The standard global that a name selects.
pub open spec fn standard_global(name: u32) -> Option<GlobalSpec> {
    if 1 <= name <= standard_globals().len() {
        Some(standard_globals()[name - 1])
    } else {
        None
    }
}

/// The requests that the engine acts on.
pub enum RequestKind {
    Sync,
    GetRegistry,
    Bind,
    CreateSurface,
    CreatePool,
    GetXdgSurface,
    GetToplevel,
    AckConfigure,
    Commit,
    Unhandled,
}

/// The object table of a connection that has just started: only the display
/// exists, as object 1.
pub open spec fn fresh_objects() -> Map<u32, Seq<char>> {
    Map::<u32, Seq<char>>::empty().insert(1, "wl_display"@)
}

/// The interface of an object, or `"unknown"` for an id that is not bound.
pub open spec fn interface_at(objects: Map<u32, Seq<char>>, id: u32) -> Seq<char> {
    if objects.contains_key(id) {
        objects[id]
    } else {
        "unknown"@
    }
}

/// Which request an opcode means on an object of the given interface.
pub open spec fn request_kind(interface: Seq<char>, opcode: u16) -> RequestKind {
    if interface == "wl_display"@ && opcode == display::SYNC {
        RequestKind::Sync
    } else if interface == "wl_display"@ && opcode == display::GET_REGISTRY {
        RequestKind::GetRegistry
    } else if interface == "wl_registry"@ && opcode == registry::BIND {
        RequestKind::Bind
    } else if interface == "wl_compositor"@ && opcode == compositor::CREATE_SURFACE {
        RequestKind::CreateSurface
    } else if interface == "wl_shm"@ && opcode == shm::CREATE_POOL {
        RequestKind::CreatePool
    } else if interface == "xdg_wm_base"@ && opcode == xdg_wm_base::GET_XDG_SURFACE {
        RequestKind::GetXdgSurface
    } else if interface == "xdg_surface"@ && opcode == xdg_surface::GET_TOPLEVEL {
        RequestKind::GetToplevel
    } else if interface == "xdg_surface"@ && opcode == xdg_surface::ACK_CONFIGURE {
        RequestKind::AckConfigure
    } else if interface == "wl_surface"@ && opcode == surface::COMMIT {
        RequestKind::Commit
    } else {
        RequestKind::Unhandled
    }
}

/// A record sent to the client.
pub open spec fn event(object_id: u32, opcode: u16, payload: Seq<u8>) -> Record {
    Record { object_id, opcode, payload }
}

/// Whether all the messages lie within the protocol's size limits and carry
/// no file descriptors.
pub open spec fn all_plain(messages: Seq<Message>) -> bool {
    forall|i: int|
        0 <= i < messages.len() ==> (#[trigger] messages[i]).fd_count == 0 && well_formed(
            messages[i]@,
        )
}

/// `n` zero octets.
pub open spec fn zeros(n: nat) -> Seq<u8> {
    Seq::new(n, |i: int| 0u8)
}

/// How many octets bring a run of `len` octets up to a 4-octet boundary.
pub open spec fn padding(len: nat) -> nat {
    ((4 - len % 4) % 4) as nat
}

/// A string argument: the length including the terminator as a word, the
/// octets, the terminating zero, and zeros up to a 4-octet boundary.
pub open spec fn packed_string(text: Seq<u8>) -> Seq<u8> {
    u32_le((text.len() + 1) as u32) + text + seq![0u8] + zeros(padding(text.len() + 1))
}

/// The octets of the characters of an ASCII text.
pub open spec fn ascii(text: Seq<char>) -> Seq<u8> {
    Seq::new(text.len(), |i: int| text[i] as u8)
}

/// The payload that announces a global: name, interface, version.
pub open spec fn global_payload(g: GlobalSpec) -> Seq<u8> {
    u32_le(g.name) + packed_string(encode_utf8(g.interface)) + u32_le(g.version)
}

/// One `global` event per advertised service, in order, on the registry.
pub open spec fn global_events(registry_id: u32, globals: Seq<GlobalSpec>) -> Seq<Record> {
    Seq::new(
        globals.len(),
        |i: int| event(registry_id, registry::GLOBAL, global_payload(globals[i])),
    )
}

/// The `geometry` arguments of the one output: position 0, 0; physical size
/// 1920 by 1080; unknown subpixel layout; make and model; normal transform.
/// The signed arguments are not negative, so their octets are those of the
/// unsigned word.
pub open spec fn geometry_payload() -> Seq<u8> {
    u32_le(0) + u32_le(0) + u32_le(1920) + u32_le(1080) + u32_le(0) + packed_string(
        ascii("Winpipe"@),
    ) + packed_string(ascii("Virtual Display"@)) + u32_le(0)
}

/// The `mode` arguments: current and preferred, 1920 by 1080 at 60 Hz.
pub open spec fn mode_payload() -> Seq<u8> {
    u32_le(3) + u32_le(1920) + u32_le(1080) + u32_le(60000)
}

/// What a freshly bound output says about itself: geometry, mode, scale,
/// done.
pub open spec fn output_info(output_id: u32) -> Seq<Record> {
    seq![
        event(output_id, 0, geometry_payload()),
        event(output_id, 1, mode_payload()),
        event(output_id, 3, u32_le(1)),
        event(output_id, 2, Seq::empty()),
    ]
}

/// The `configure` arguments of a new toplevel: 1920 by 1080, no states.
pub open spec fn toplevel_configure_payload() -> Seq<u8> {
    u32_le(1920) + u32_le(1080) + u32_le(0)
}

/// The object table after a request, and the replies to it, in order.
#[verifier::opaque]
pub open spec fn step(objects: Map<u32, Seq<char>>, request: Record) -> (
    Map<u32, Seq<char>>,
    Seq<Record>,
) {
    let p = request.payload;
    let quiet = (objects, Seq::<Record>::empty());
    match request_kind(interface_at(objects, request.object_id), request.opcode) {
        RequestKind::Sync => if p.len() >= 4 {
            let callback_id = word_at(p, 0);
            (
                objects.insert(callback_id, "wl_callback"@),
                seq![event(callback_id, 0, u32_le(1))],
            )
        } else {
            quiet
        },
        RequestKind::GetRegistry => if p.len() >= 4 {
            let registry_id = word_at(p, 0);
            (
                objects.insert(registry_id, "wl_registry"@),
                global_events(registry_id, standard_globals()),
            )
        } else {
            quiet
        },
        RequestKind::Bind => if p.len() >= 8 {
            match standard_global(word_at(p, 0)) {
                Some(g) => {
                    let new_id = word_at(p, p.len() - 4);
                    (
                        objects.insert(new_id, g.interface),
                        if g.interface == "wl_output"@ {
                            output_info(new_id)
                        } else {
                            Seq::empty()
                        },
                    )
                },
                None => quiet,
            }
        } else {
            quiet
        },
        RequestKind::CreateSurface => if p.len() >= 4 {
            (objects.insert(word_at(p, 0), "wl_surface"@), Seq::empty())
        } else {
            quiet
        },
        RequestKind::CreatePool => if p.len() >= 8 {
            (
                objects.insert(word_at(p, 0), "wl_shm_pool"@),
                seq![
                    event(request.object_id, shm::FORMAT, u32_le(0)),
                    event(request.object_id, shm::FORMAT, u32_le(1)),
                ],
            )
        } else {
            quiet
        },
        RequestKind::GetXdgSurface => if p.len() >= 8 {
            (objects.insert(word_at(p, 0), "xdg_surface"@), Seq::empty())
        } else {
            quiet
        },
        RequestKind::GetToplevel => if p.len() >= 4 {
            let toplevel_id = word_at(p, 0);
            (
                objects.insert(toplevel_id, "xdg_toplevel"@),
                seq![
                    event(toplevel_id, 0, toplevel_configure_payload()),
                    event(request.object_id, xdg_surface::CONFIGURE, u32_le(1)),
                ],
            )
        } else {
            quiet
        },
        RequestKind::AckConfigure => quiet,
        RequestKind::Commit => quiet,
        RequestKind::Unhandled => quiet,
    }
}

/// The names of the standard globals count up from 1; their interface names
/// are plain ASCII, one octet to the character and a few octets long.
pub proof fn lemma_standard_names()
    ensures
        forall|i: int|
            0 <= i < standard_globals().len() ==> {
                &&& is_ascii_chars(#[trigger] standard_globals()[i].interface)
                &&& encode_utf8(standard_globals()[i].interface) == ascii(
                    standard_globals()[i].interface,
                )
                &&& encode_utf8(standard_globals()[i].interface).len() <= 22
                &&& standard_globals()[i].name == i + 1
            },
{
    reveal_strlit("wl_compositor");
    reveal_strlit("wl_subcompositor");
    reveal_strlit("wl_shm");
    reveal_strlit("wl_output");
    reveal_strlit("wl_seat");
    reveal_strlit("wl_data_device_manager");
    reveal_strlit("xdg_wm_base");
    reveal_strlit("wp_viewporter");
    reveal_strlit("zwp_linux_dmabuf_v1");
    assert forall|i: int| 0 <= i < standard_globals().len() implies {
        &&& is_ascii_chars(#[trigger] standard_globals()[i].interface)
        &&& encode_utf8(standard_globals()[i].interface) == ascii(standard_globals()[i].interface)
        &&& encode_utf8(standard_globals()[i].interface).len() <= 22
        &&& standard_globals()[i].name == i + 1
    } by {
        let text = standard_globals()[i].interface;
        assert(is_ascii_chars(text));
        is_ascii_chars_encode_utf8(text);
        assert(encode_utf8(text) =~= ascii(text));
    }
}

/// Which request an opcode means on an object of the given interface.
fn classify(interface: &str, opcode: u16) -> (kind: RequestKind)
    ensures
        kind == request_kind(interface@, opcode),
{
    if same_text(interface, "wl_display") && opcode == display::SYNC {
        RequestKind::Sync
    } else if same_text(interface, "wl_display") && opcode == display::GET_REGISTRY {
        RequestKind::GetRegistry
    } else if same_text(interface, "wl_registry") && opcode == registry::BIND {
        RequestKind::Bind
    } else if same_text(interface, "wl_compositor") && opcode == compositor::CREATE_SURFACE {
        RequestKind::CreateSurface
    } else if same_text(interface, "wl_shm") && opcode == shm::CREATE_POOL {
        RequestKind::CreatePool
    } else if same_text(interface, "xdg_wm_base") && opcode == xdg_wm_base::GET_XDG_SURFACE {
        RequestKind::GetXdgSurface
    } else if same_text(interface, "xdg_surface") && opcode == xdg_surface::GET_TOPLEVEL {
        RequestKind::GetToplevel
    } else if same_text(interface, "xdg_surface") && opcode == xdg_surface::ACK_CONFIGURE {
        RequestKind::AckConfigure
    } else if same_text(interface, "wl_surface") && opcode == surface::COMMIT {
        RequestKind::Commit
    } else {
        RequestKind::Unhandled
    }
}

/// Appends a string argument to a payload under construction.
fn push_string(buf: &mut Vec<u8>, text: &[u8])
    requires
        text@.len() < u32::MAX,
    ensures
        final(buf)@ == old(buf)@ + packed_string(text@),
{
    let with_nul: usize = text.len() + 1;
    push_u32_le(buf, with_nul as u32);
    buf.extend_from_slice(text);
    buf.push(0);
    let fill: usize = (4 - with_nul % 4) % 4;
    let mut written: usize = 0;
    while written < fill
        invariant
            written <= fill,
            with_nul <= u32::MAX,
            buf@ == old(buf)@ + u32_le(with_nul as u32) + text@ + seq![0u8] + zeros(
                written as nat,
            ),
        decreases fill - written,
    {
        buf.push(0);
        written += 1;
        assert(buf@ =~= old(buf)@ + u32_le(with_nul as u32) + text@ + seq![0u8] + zeros(
            written as nat,
        ));
    }
    assert(buf@ =~= old(buf)@ + packed_string(text@));
}

/// The advertised services. The list is filled when the connection starts
/// and only read afterwards.
struct Advertised {
    list: Vec<Global>,
    /// The name that the next registered global would get.
    next_name: u32,
}

impl Advertised {
    #[verifier::type_invariant]
    spec fn is_standard(self) -> bool {
        global_specs(self.list@) == standard_globals()
    }
}

/// The per-connection state of the engine.
pub struct Compositor {
    /// The advertised services.
    globals: Advertised,
    /// Which interface each object id implements.
    objects: HashMap<u32, String>,
    /// Server-side ids; the requests served so far need none.
    allocator: ObjectAllocator,
    /// Encoder for replies.
    encoder: WireEncoder,
}

impl View for Compositor {
    type V = Map<u32, Seq<char>>;

    /// The object table: the interface name of each bound id.
    closed spec fn view(&self) -> Map<u32, Seq<char>> {
        self.objects@.map_values(|name: String| name@)
    }
}

impl Compositor {
    /// The id that the engine's allocator of server-side ids hands out
    /// next.
    pub closed spec fn next_server_id(&self) -> u32 {
        self.allocator.next()
    }

    /// The services that the engine advertises, in the order in which they
    /// are announced.
    pub closed spec fn advertised(&self) -> Seq<GlobalSpec> {
        global_specs(self.globals.list@)
    }

    /// A fresh engine: only the display exists, as object 1; the standard
    /// globals are advertised; server-side ids start at 2.
    pub fn new() -> (c: Compositor)
        ensures
            c@ == fresh_objects(),
            c.advertised() == standard_globals(),
            c.next_server_id() == 2,
    {
        let mut objects: HashMap<u32, String> = HashMap::new();
        objects.insert(1, String::from_str("wl_display"));
        let mut globals: Vec<Global> = Vec::new();
        let mut next_global_name: u32 = 1;
        Self::register_global(&mut globals, &mut next_global_name, "wl_compositor", 5);
        Self::register_global(&mut globals, &mut next_global_name, "wl_subcompositor", 1);
        Self::register_global(&mut globals, &mut next_global_name, "wl_shm", 1);
        Self::register_global(&mut globals, &mut next_global_name, "wl_output", 4);
        Self::register_global(&mut globals, &mut next_global_name, "wl_seat", 8);
        Self::register_global(&mut globals, &mut next_global_name, "wl_data_device_manager", 3);
        Self::register_global(&mut globals, &mut next_global_name, "xdg_wm_base", 5);
        Self::register_global(&mut globals, &mut next_global_name, "wp_viewporter", 1);
        Self::register_global(&mut globals, &mut next_global_name, "zwp_linux_dmabuf_v1", 4);
        assert(global_specs(globals@) =~= standard_globals());
        let c = Compositor {
            globals: Advertised { list: globals, next_name: next_global_name },
            objects,
            allocator: ObjectAllocator::new(),
            encoder: WireEncoder::new(),
        };
        assert(c@ =~= fresh_objects());
        c
    }

    /// Adds a service to the list under the next free name.
    fn register_global(
        globals: &mut Vec<Global>,
        next_global_name: &mut u32,
        interface: &str,
        version: u32,
    )
        requires
            *old(next_global_name) < u32::MAX,
        ensures
            *final(next_global_name) == *old(next_global_name) + 1,
            global_specs(final(globals)@) == global_specs(old(globals)@).push(
                GlobalSpec { name: *old(next_global_name), interface: interface@, version },
            ),
    {
        let name = *next_global_name;
        *next_global_name += 1;
        globals.push(Global { name, interface: String::from_str(interface), version });
        assert(global_specs(globals@) =~= global_specs(old(globals)@).push(
            GlobalSpec { name, interface: interface@, version },
        ));
    }

    /// The advertised services, in the order in which they are announced.
    pub fn globals(&self) -> (globals: &Vec<Global>)
        ensures
            global_specs(globals@) == self.advertised(),
            self.advertised() == standard_globals(),
    {
        proof {
            use_type_invariant(&self.globals);
        }
        &self.globals.list
    }

    /// The interface that an object id is bound to, if it is bound.
    pub fn lookup(&self, id: u32) -> (interface: Option<&String>)
        ensures
            match interface {
                Some(name) => self@.contains_key(id) && self@[id] == name@,
                None => !self@.contains_key(id),
            },
    {
        self.objects.get(&id)
    }

    /// Binds an object id to an interface; an earlier binding is replaced.
    pub fn bind(&mut self, id: u32, interface: &str)
        ensures
            final(self)@ == old(self)@.insert(id, interface@),
            final(self).advertised() == old(self).advertised(),
            final(self).next_server_id() == old(self).next_server_id(),
    {
        self.objects.insert(id, String::from_str(interface));
        assert(self@ =~= old(self)@.insert(id, interface@));
    }

    /// The global that a name selects.
    fn find_global(&self, name: u32) -> (found: Option<usize>)
        ensures
            match found {
                Some(i) => i < self.globals.list@.len() && standard_global(name) == Some(
                    self.globals.list@[i as int]@,
                ),
                None => standard_global(name) is None,
            },
    {
        proof {
            use_type_invariant(&self.globals);
            lemma_standard_names();
        }
        let mut i: usize = 0;
        while i < self.globals.list.len()
            invariant
                i <= self.globals.list@.len(),
                global_specs(self.globals.list@) == standard_globals(),
                forall|k: int| 0 <= k < standard_globals().len() ==> (
                #[trigger] standard_globals()[k]).name == k + 1,
                forall|k: int| 0 <= k < i ==> self.globals.list@[k].name != name,
            decreases self.globals.list@.len() - i,
        {
            assert(global_specs(self.globals.list@)[i as int] == self.globals.list@[i as int]@);
            if self.globals.list[i].name == name {
                return Some(i);
            }
            i += 1;
        }
        proof {
            if 1 <= name <= standard_globals().len() {
                assert(global_specs(self.globals.list@)[name - 1] == self.globals.list@[name - 1]@);
            }
        }
        None
    }

    /// Serves one request: updates the object table and returns the replies,
    /// to be sent in order. A request that the engine does not know, or one
    /// on an id that is not bound, changes nothing and gets no reply. Nothing
    /// but the object table changes.
    pub fn handle_message(&mut self, msg: &Message) -> (replies: Vec<Message>)
        ensures
            final(self)@ == step(old(self)@, msg@).0,
            records(replies@) == step(old(self)@, msg@).1,
            all_plain(replies@),
            final(self).advertised() == old(self).advertised(),
            final(self).next_server_id() == old(self).next_server_id(),
    {
        let kind = match self.objects.get(&msg.object_id) {
            Some(name) => classify(name.as_str(), msg.opcode),
            None => classify("unknown", msg.opcode),
        };
        let payload = msg.payload.as_slice();
        let mut replies: Vec<Message> = Vec::new();
        match kind {
            RequestKind::Sync => {
                if payload.len() >= 4 {
                    let callback_id = get_u32_le(payload, 0);
                    self.bind(callback_id, "wl_callback");
                    let mut serial: Vec<u8> = Vec::new();
                    push_u32_le(&mut serial, 1);
                    replies.push(Message::new(callback_id, 0, serial));
                }
            },
            RequestKind::GetRegistry => {
                if payload.len() >= 4 {
                    let registry_id = get_u32_le(payload, 0);
                    self.bind(registry_id, "wl_registry");
                    replies = self.send_globals(registry_id);
                }
            },
            RequestKind::Bind => {
                if payload.len() >= 4 {
                    let name = get_u32_le(payload, 0);
                    if let Some(index) = self.find_global(name) {
                        if payload.len() >= 8 {
                            let new_id = get_u32_le(payload, payload.len() - 4);
                            let interface = self.globals.list[index].interface.clone();
                            self.bind(new_id, interface.as_str());
                            if same_text(interface.as_str(), "wl_output") {
                                replies = self.send_output_info(new_id);
                            }
                        }
                    }
                }
            },
            RequestKind::CreateSurface => {
                if payload.len() >= 4 {
                    let surface_id = get_u32_le(payload, 0);
                    self.bind(surface_id, "wl_surface");
                }
            },
            RequestKind::CreatePool => {
                if payload.len() >= 8 {
                    let pool_id = get_u32_le(payload, 0);
                    self.bind(pool_id, "wl_shm_pool");
                    let mut argb: Vec<u8> = Vec::new();
                    push_u32_le(&mut argb, 0);
                    replies.push(Message::new(msg.object_id, shm::FORMAT, argb));
                    let mut xrgb: Vec<u8> = Vec::new();
                    push_u32_le(&mut xrgb, 1);
                    replies.push(Message::new(msg.object_id, shm::FORMAT, xrgb));
                }
            },
            RequestKind::GetXdgSurface => {
                if payload.len() >= 8 {
                    let xdg_surface_id = get_u32_le(payload, 0);
                    self.bind(xdg_surface_id, "xdg_surface");
                }
            },
            RequestKind::GetToplevel => {
                if payload.len() >= 4 {
                    let toplevel_id = get_u32_le(payload, 0);
                    self.bind(toplevel_id, "xdg_toplevel");
                    let mut toplevel_conf: Vec<u8> = Vec::new();
                    push_u32_le(&mut toplevel_conf, 1920);
                    push_u32_le(&mut toplevel_conf, 1080);
                    push_u32_le(&mut toplevel_conf, 0);
                    replies.push(Message::new(toplevel_id, 0, toplevel_conf));
                    let mut serial: Vec<u8> = Vec::new();
                    push_u32_le(&mut serial, 1);
                    replies.push(Message::new(msg.object_id, xdg_surface::CONFIGURE, serial));
                }
            },
            RequestKind::AckConfigure => {},
            RequestKind::Commit => {},
            RequestKind::Unhandled => {},
        }
        proof {
            reveal(step);
        }
        assert(records(replies@) =~= step(old(self)@, msg@).1);
        replies
    }

    /// The octets of the replies, in order and without padding.
    pub fn encode_responses(&self, messages: &[Message]) -> (out: Vec<u8>)
        requires
            forall|i: int| 0 <= i < messages@.len() ==> (#[trigger] messages@[i]).fits(),
        ensures
            out@ == batch_encoding(records(messages@)),
    {
        self.encoder.encode_batch(messages)
    }

    /// One `global` event for each advertised service.
    fn send_globals(&self, registry_id: u32) -> (replies: Vec<Message>)
        ensures
            records(replies@) == global_events(registry_id, standard_globals()),
            all_plain(replies@),
    {
        proof {
            use_type_invariant(&self.globals);
            lemma_standard_names();
        }
        let mut replies: Vec<Message> = Vec::new();
        let mut i: usize = 0;
        while i < self.globals.list.len()
            invariant
                i <= self.globals.list@.len(),
                global_specs(self.globals.list@) == standard_globals(),
                forall|k: int|
                    0 <= k < standard_globals().len() ==> encode_utf8(
                        (#[trigger] standard_globals()[k]).interface,
                    ).len() <= 22,
                replies@.len() == i,
                forall|k: int|
                    0 <= k < i ==> (#[trigger] replies@[k])@ == global_events(
                        registry_id,
                        standard_globals(),
                    )[k],
                all_plain(replies@),
            decreases self.globals.list@.len() - i,
        {
            let global = &self.globals.list[i];
            assert(global_specs(self.globals.list@)[i as int] == global@);
            let mut payload: Vec<u8> = Vec::new();
            push_u32_le(&mut payload, global.name);
            push_string(&mut payload, global.interface.as_str().as_bytes());
            push_u32_le(&mut payload, global.version);
            assert(payload@ =~= global_payload(global@));
            replies.push(Message::new(registry_id, registry::GLOBAL, payload));
            i += 1;
        }
        assert(records(replies@) =~= global_events(registry_id, standard_globals()));
        replies
    }

    /// The events that describe the output to the client that bound it.
    fn send_output_info(&self, output_id: u32) -> (replies: Vec<Message>)
        ensures
            records(replies@) == output_info(output_id),
            all_plain(replies@),
    {
        let mut replies: Vec<Message> = Vec::new();

        let make = "Winpipe";
        let model = "Virtual Display";
        proof {
            reveal_strlit("Winpipe");
            reveal_strlit("Virtual Display");
            assert(is_ascii_chars(make@));
            assert(is_ascii_chars(model@));
            is_ascii_chars_encode_utf8(make@);
            is_ascii_chars_encode_utf8(model@);
            assert(encode_utf8(make@) =~= ascii(make@));
            assert(encode_utf8(model@) =~= ascii(model@));
        }
        let mut geometry: Vec<u8> = Vec::new();
        push_u32_le(&mut geometry, 0);
        push_u32_le(&mut geometry, 0);
        push_u32_le(&mut geometry, 1920);
        push_u32_le(&mut geometry, 1080);
        push_u32_le(&mut geometry, 0);
        push_string(&mut geometry, make.as_bytes());
        push_string(&mut geometry, model.as_bytes());
        push_u32_le(&mut geometry, 0);
        assert(geometry@ =~= geometry_payload());
        replies.push(Message::new(output_id, 0, geometry));

        let mut mode: Vec<u8> = Vec::new();
        push_u32_le(&mut mode, 3);
        push_u32_le(&mut mode, 1920);
        push_u32_le(&mut mode, 1080);
        push_u32_le(&mut mode, 60000);
        assert(mode@ =~= mode_payload());
        replies.push(Message::new(output_id, 1, mode));

        let mut scale: Vec<u8> = Vec::new();
        push_u32_le(&mut scale, 1);
        replies.push(Message::new(output_id, 3, scale));

        replies.push(Message::new(output_id, 2, Vec::new()));

        assert(records(replies@) =~= output_info(output_id));
        replies
    }
}

impl Default for Compositor {
    fn default() -> (c: Compositor)
        ensures
            c@ == fresh_objects(),
            c.advertised() == standard_globals(),
            c.next_server_id() == 2,
    {
        Compositor::new()
    }
}

} // verus!
