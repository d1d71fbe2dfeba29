use winpipe::compositor::{Compositor, Global, ObjectAllocator};
use winpipe::wire::{Message, WireDecoder};

fn word(x: u32) -> Vec<u8> {
    x.to_le_bytes().to_vec()
}

fn packed(text: &str) -> Vec<u8> {
    let mut out = word(text.len() as u32 + 1);
    out.extend_from_slice(text.as_bytes());
    out.push(0);
    while out.len() % 4 != 0 {
        out.push(0);
    }
    out
}

fn get_registry(comp: &mut Compositor, registry: u32) -> Vec<Message> {
    comp.handle_message(&Message::new(1, 1, word(registry)))
}

fn bind(comp: &mut Compositor, registry: u32, name: u32, interface: &str, version: u32, id: u32) -> Vec<Message> {
    let mut payload = word(name);
    payload.extend_from_slice(&packed(interface));
    payload.extend_from_slice(&word(version));
    payload.extend_from_slice(&word(id));
    comp.handle_message(&Message::new(registry, 0, payload))
}

fn geometry() -> Vec<u8> {
    vec![
        0, 0, 0, 0, // x
        0, 0, 0, 0, // y
        0x80, 0x07, 0, 0, // physical width
        0x38, 0x04, 0, 0, // physical height
        0, 0, 0, 0, // subpixel
        8, 0, 0, 0, b'W', b'i', b'n', b'p', b'i', b'p', b'e', 0, // make
        16, 0, 0, 0, b'V', b'i', b'r', b't', b'u', b'a', b'l', b' ', b'D', b'i', b's', b'p',
        b'l', b'a', b'y', 0, // model
        0, 0, 0, 0, // transform
    ]
}

#[test]
fn test_compositor_init() {
    let comp = Compositor::new();
    assert!(!comp.globals().is_empty());
}

#[test]
fn test_handle_get_registry() {
    let mut comp = Compositor::new();

    // wl_display.get_registry with new_id = 2
    let msg = Message::new(1, 1, 2u32.to_le_bytes().to_vec());
    let responses = comp.handle_message(&msg);

    // Should get global events for each registered interface
    assert!(!responses.is_empty());
}

#[test]
fn allocator_counts_up_from_two() {
    let mut ids = ObjectAllocator::new();
    assert_eq!(ids.allocate(), 2);
    assert_eq!(ids.allocate(), 3);
    assert_eq!(ids.allocate(), 4);
    let mut other = ObjectAllocator::default();
    assert_eq!(other.allocate(), 2);
}

#[test]
fn fresh_engine_knows_only_the_display() {
    let comp = Compositor::default();
    assert_eq!(comp.lookup(1).map(|s| s.as_str()), Some("wl_display"));
    assert!(comp.lookup(0).is_none());
    assert!(comp.lookup(2).is_none());
}

#[test]
fn globals_are_the_standard_list() {
    let comp = Compositor::new();
    let expected = [
        ("wl_compositor", 5u32),
        ("wl_subcompositor", 1),
        ("wl_shm", 1),
        ("wl_output", 4),
        ("wl_seat", 8),
        ("wl_data_device_manager", 3),
        ("xdg_wm_base", 5),
        ("wp_viewporter", 1),
        ("zwp_linux_dmabuf_v1", 4),
    ];
    let globals: &Vec<Global> = comp.globals();
    assert_eq!(globals.len(), 9);
    for (i, (interface, version)) in expected.iter().enumerate() {
        assert_eq!(globals[i].name, i as u32 + 1);
        assert_eq!(globals[i].interface, *interface);
        assert_eq!(globals[i].version, *version);
    }
}

#[test]
fn handshake_fast_path() {
    let mut comp = Compositor::new();
    let mut decoder = WireDecoder::new();
    decoder.push(&Message::new(1, 1, word(2)).encode());
    let request = decoder.decode().unwrap();
    let replies = comp.handle_message(&request);

    let names = [
        "wl_compositor",
        "wl_subcompositor",
        "wl_shm",
        "wl_output",
        "wl_seat",
        "wl_data_device_manager",
        "xdg_wm_base",
        "wp_viewporter",
        "zwp_linux_dmabuf_v1",
    ];
    let versions = [5u32, 1, 1, 4, 8, 3, 5, 1, 4];
    assert_eq!(replies.len(), 9);
    for i in 0..9 {
        assert_eq!(replies[i].object_id, 2);
        assert_eq!(replies[i].opcode, 0);
        assert_eq!(replies[i].fd_count, 0);
        let mut expected = word(i as u32 + 1);
        expected.extend_from_slice(&packed(names[i]));
        expected.extend_from_slice(&word(versions[i]));
        assert_eq!(replies[i].payload, expected);
        assert_eq!(replies[i].payload.len() % 4, 0);
    }
    // the first one, octet by octet: name 1, "wl_compositor" with its
    // terminator is 14 long and padded to 16, version 5
    assert_eq!(
        replies[0].payload,
        vec![
            1, 0, 0, 0, 14, 0, 0, 0, b'w', b'l', b'_', b'c', b'o', b'm', b'p', b'o', b's', b'i',
            b't', b'o', b'r', 0, 0, 0, 5, 0, 0, 0
        ]
    );
    // "wl_seat" with its terminator is 8 long: no padding
    assert_eq!(
        replies[4].payload,
        vec![5, 0, 0, 0, 8, 0, 0, 0, b'w', b'l', b'_', b's', b'e', b'a', b't', 0, 8, 0, 0, 0]
    );
    assert_eq!(comp.lookup(2).map(|s| s.as_str()), Some("wl_registry"));
}

#[test]
fn get_registry_replies_go_to_the_new_id() {
    for registry in [2u32, 77, 0xFFFF_FFFF] {
        let mut comp = Compositor::new();
        let replies = get_registry(&mut comp, registry);
        assert_eq!(replies.len(), comp.globals().len());
        for (i, reply) in replies.iter().enumerate() {
            assert_eq!(reply.object_id, registry);
            assert_eq!(reply.opcode, 0);
            assert_eq!(&reply.payload[..4], &word(i as u32 + 1)[..]);
        }
    }
}

#[test]
fn output_binding() {
    let mut comp = Compositor::new();
    get_registry(&mut comp, 2);
    let replies = bind(&mut comp, 2, 4, "wl_output", 4, 10);

    assert_eq!(replies.len(), 4);
    for reply in &replies {
        assert_eq!(reply.object_id, 10);
        assert_eq!(reply.fd_count, 0);
    }
    assert_eq!(replies[0].opcode, 0);
    assert_eq!(replies[0].payload, geometry());
    assert_eq!(replies[0].payload.len(), 56);
    assert_eq!(replies[1].opcode, 1);
    assert_eq!(
        replies[1].payload,
        vec![3, 0, 0, 0, 0x80, 0x07, 0, 0, 0x38, 0x04, 0, 0, 0x60, 0xEA, 0, 0]
    );
    assert_eq!(replies[2].opcode, 3);
    assert_eq!(replies[2].payload, vec![1, 0, 0, 0]);
    assert_eq!(replies[3].opcode, 2);
    assert_eq!(replies[3].payload, Vec::<u8>::new());
    assert_eq!(comp.lookup(10).map(|s| s.as_str()), Some("wl_output"));
}

#[test]
fn bind_reads_only_the_name_and_the_last_word() {
    let mut comp = Compositor::new();
    get_registry(&mut comp, 5);
    // name 4, no interface string at all, new id 11
    let mut payload = word(4);
    payload.extend_from_slice(&word(11));
    let replies = comp.handle_message(&Message::new(5, 0, payload));
    assert_eq!(replies.len(), 4);
    assert_eq!(replies[0].object_id, 11);
    assert_eq!(comp.lookup(11).map(|s| s.as_str()), Some("wl_output"));
}

#[test]
fn bind_of_other_globals_is_silent() {
    let mut comp = Compositor::new();
    get_registry(&mut comp, 2);
    assert!(bind(&mut comp, 2, 1, "wl_compositor", 5, 3).is_empty());
    assert!(bind(&mut comp, 2, 3, "wl_shm", 1, 4).is_empty());
    assert!(bind(&mut comp, 2, 9, "zwp_linux_dmabuf_v1", 4, 5).is_empty());
    assert_eq!(comp.lookup(3).map(|s| s.as_str()), Some("wl_compositor"));
    assert_eq!(comp.lookup(4).map(|s| s.as_str()), Some("wl_shm"));
    assert_eq!(comp.lookup(5).map(|s| s.as_str()), Some("zwp_linux_dmabuf_v1"));
}

#[test]
fn bind_of_an_unknown_name_changes_nothing() {
    let mut comp = Compositor::new();
    get_registry(&mut comp, 2);
    assert!(bind(&mut comp, 2, 0, "wl_output", 4, 10).is_empty());
    assert!(bind(&mut comp, 2, 10, "wl_output", 4, 10).is_empty());
    assert!(comp.lookup(10).is_none());
}

#[test]
fn bind_needs_eight_octets() {
    let mut comp = Compositor::new();
    get_registry(&mut comp, 2);
    let replies = comp.handle_message(&Message::new(2, 0, word(4)));
    assert!(replies.is_empty());
    let replies = comp.handle_message(&Message::new(2, 0, vec![4, 0, 0, 0, 9, 0, 0]));
    assert!(replies.is_empty());
    assert!(comp.lookup(9).is_none());
}

#[test]
fn toplevel_configure() {
    let mut comp = Compositor::new();
    get_registry(&mut comp, 2);
    bind(&mut comp, 2, 1, "wl_compositor", 5, 3);
    bind(&mut comp, 2, 7, "xdg_wm_base", 5, 4);

    // create_surface(id=20)
    assert!(comp.handle_message(&Message::new(3, 0, word(20))).is_empty());
    assert_eq!(comp.lookup(20).map(|s| s.as_str()), Some("wl_surface"));

    // get_xdg_surface(id=30, surface=20)
    let mut payload = word(30);
    payload.extend_from_slice(&word(20));
    assert!(comp.handle_message(&Message::new(4, 2, payload)).is_empty());
    assert_eq!(comp.lookup(30).map(|s| s.as_str()), Some("xdg_surface"));

    // get_toplevel(id=40)
    let replies = comp.handle_message(&Message::new(30, 1, word(40)));
    assert_eq!(replies.len(), 2);
    assert_eq!(replies[0].object_id, 40);
    assert_eq!(replies[0].opcode, 0);
    assert_eq!(
        replies[0].payload,
        vec![0x80, 0x07, 0, 0, 0x38, 0x04, 0, 0, 0, 0, 0, 0]
    );
    assert_eq!(replies[1].object_id, 30);
    assert_eq!(replies[1].opcode, 0);
    assert_eq!(replies[1].payload, vec![1, 0, 0, 0]);
    assert_eq!(comp.lookup(40).map(|s| s.as_str()), Some("xdg_toplevel"));

    // ack_configure and commit are taken in silence
    assert!(comp.handle_message(&Message::new(30, 4, word(1))).is_empty());
    assert!(comp.handle_message(&Message::new(20, 6, vec![])).is_empty());
}

#[test]
fn surface_id_that_rebinds_the_wm_base_breaks_the_sequence() {
    let mut comp = Compositor::new();
    get_registry(&mut comp, 2);
    bind(&mut comp, 2, 1, "wl_compositor", 5, 3);
    bind(&mut comp, 2, 7, "xdg_wm_base", 5, 4);
    // the new surface takes the id of the xdg_wm_base
    comp.handle_message(&Message::new(3, 0, word(4)));
    assert_eq!(comp.lookup(4).map(|s| s.as_str()), Some("wl_surface"));
    let mut payload = word(30);
    payload.extend_from_slice(&word(4));
    assert!(comp.handle_message(&Message::new(4, 2, payload)).is_empty());
    assert!(comp.lookup(30).is_none());
    assert!(comp.handle_message(&Message::new(30, 1, word(40))).is_empty());
}

#[test]
fn sync_yields_one_callback_done() {
    for callback in [3u32, 1000, 0xFFFF_FFFE] {
        let mut comp = Compositor::new();
        let replies = comp.handle_message(&Message::new(1, 0, word(callback)));
        assert_eq!(replies.len(), 1);
        assert_eq!(replies[0].object_id, callback);
        assert_eq!(replies[0].opcode, 0);
        assert_eq!(replies[0].payload, vec![1, 0, 0, 0]);
        assert_eq!(comp.lookup(callback).map(|s| s.as_str()), Some("wl_callback"));
    }
}

#[test]
fn create_pool_announces_two_formats_on_the_shm() {
    let mut comp = Compositor::new();
    get_registry(&mut comp, 2);
    bind(&mut comp, 2, 3, "wl_shm", 1, 6);
    let mut payload = word(50);
    payload.extend_from_slice(&word(4096));
    let replies = comp.handle_message(&Message::new(6, 0, payload));
    assert_eq!(replies.len(), 2);
    assert_eq!(replies[0].object_id, 6);
    assert_eq!(replies[0].opcode, 0);
    assert_eq!(replies[0].payload, vec![0, 0, 0, 0]);
    assert_eq!(replies[1].object_id, 6);
    assert_eq!(replies[1].opcode, 0);
    assert_eq!(replies[1].payload, vec![1, 0, 0, 0]);
    assert_eq!(comp.lookup(50).map(|s| s.as_str()), Some("wl_shm_pool"));

    // with fewer than eight octets nothing happens
    assert!(comp.handle_message(&Message::new(6, 0, word(51))).is_empty());
    assert!(comp.lookup(51).is_none());
}

#[test]
fn short_payloads_are_ignored() {
    let mut comp = Compositor::new();
    assert!(comp.handle_message(&Message::new(1, 0, vec![1, 2, 3])).is_empty());
    assert!(comp.handle_message(&Message::new(1, 1, vec![])).is_empty());
    assert!(comp.lookup(0x0003_0201).is_none());
    get_registry(&mut comp, 2);
    bind(&mut comp, 2, 1, "wl_compositor", 5, 3);
    bind(&mut comp, 2, 7, "xdg_wm_base", 5, 4);
    assert!(comp.handle_message(&Message::new(3, 0, vec![20, 0, 0])).is_empty());
    assert!(comp.lookup(20).is_none());
    // get_xdg_surface needs the surface argument too
    assert!(comp.handle_message(&Message::new(4, 2, word(30))).is_empty());
    assert!(comp.lookup(30).is_none());
}

#[test]
fn unknown_requests_get_no_reply() {
    let mut comp = Compositor::new();
    // an opcode that the display does not have
    assert!(comp.handle_message(&Message::new(1, 2, word(5))).is_empty());
    // an object that is not bound
    assert!(comp.handle_message(&Message::new(99, 0, word(5))).is_empty());
    assert!(comp.handle_message(&Message::new(0, 1, word(5))).is_empty());
    assert!(comp.lookup(5).is_none());
    // a bound object whose interface has no handled request
    comp.handle_message(&Message::new(1, 0, word(8)));
    assert!(comp.handle_message(&Message::new(8, 0, word(9))).is_empty());
    assert!(comp.lookup(9).is_none());
}

#[test]
fn binding_again_replaces_the_interface() {
    let mut comp = Compositor::new();
    comp.handle_message(&Message::new(1, 0, word(8)));
    assert_eq!(comp.lookup(8).map(|s| s.as_str()), Some("wl_callback"));
    comp.handle_message(&Message::new(1, 1, word(8)));
    assert_eq!(comp.lookup(8).map(|s| s.as_str()), Some("wl_registry"));
}

#[test]
fn encode_responses_is_the_batch() {
    let mut comp = Compositor::new();
    let replies = comp.handle_message(&Message::new(1, 0, word(3)));
    assert_eq!(
        comp.encode_responses(&replies),
        vec![3, 0, 0, 0, 0, 0, 12, 0, 1, 0, 0, 0]
    );
    assert_eq!(comp.encode_responses(&[]), Vec::<u8>::new());
    let all = get_registry(&mut comp, 2);
    let octets = comp.encode_responses(&all);
    let expected: Vec<u8> = all.iter().flat_map(|m| m.encode()).collect();
    assert_eq!(octets, expected);
}

#[test]
fn bound_objects_stay_bound() {
    let mut comp = Compositor::new();
    get_registry(&mut comp, 2);
    bind(&mut comp, 2, 1, "wl_compositor", 5, 3);
    bind(&mut comp, 2, 4, "wl_output", 4, 10);
    comp.handle_message(&Message::new(3, 0, word(20)));
    comp.handle_message(&Message::new(1, 0, word(21)));
    comp.handle_message(&Message::new(99, 9, vec![0; 16]));
    for id in [1u32, 2, 3, 10, 20, 21] {
        assert!(comp.lookup(id).is_some());
    }
    assert_eq!(comp.lookup(1).map(|s| s.as_str()), Some("wl_display"));
}

#[test]
fn bind_sets_the_interface_of_an_id() {
    let mut comp = Compositor::new();
    comp.bind(42, "wl_shm");
    assert_eq!(comp.lookup(42).map(|s| s.as_str()), Some("wl_shm"));
    let mut payload = word(50);
    payload.extend_from_slice(&word(4096));
    assert_eq!(comp.handle_message(&Message::new(42, 0, payload)).len(), 2);
    comp.bind(42, "wl_surface");
    assert_eq!(comp.lookup(42).map(|s| s.as_str()), Some("wl_surface"));
}
