use torch_lights::client::{Address, RenderMode};
use torch_lights::codec::{Command, PollReply};
use torch_lights::config::Config;
use torch_lights::messages::{
    AddAnimation, Animation, CommandError, RequestAnimationList, RequestNodeList,
    SetNodeAnimation, SetNodeColor,
};
use torch_lights::service::Service;

fn addr(last: u8) -> Address {
    Address { ip: [10, 0, 0, last], port: 6454 }
}

fn empty_config() -> Config {
    Config {
        web_endpoint: Address { ip: [0, 0, 0, 0], port: 8080 },
        broadcasts: Vec::new(),
        torch_mappings: Vec::new(),
    }
}

fn reply(last: u8, short: &str) -> PollReply {
    let mut short_name = [0u8; 18];
    short_name[..short.len()].copy_from_slice(short.as_bytes());
    let mut long_name = [0u8; 64];
    long_name[..4].copy_from_slice(b"long");
    PollReply { address: [10, 0, 0, last], port: 6454, short_name, long_name }
}

fn service_with_node(last: u8, now: u64) -> Service {
    let mut service = Service::new(empty_config());
    service.handle(Command::PollReply(reply(last, "torch")), addr(last), now);
    service
}

/// A solid frame: the whole grid one color.
fn solid_frame(r: u8, g: u8, b: u8) -> [[(u8, u8, u8); 7]; 22] {
    [[(r, g, b); 7]; 22]
}

fn push_animation(service: &mut Service, name: &str, frames: Vec<[[(u8, u8, u8); 7]; 22]>, fps: u8) {
    service.animations.animations.push(Animation {
        name: name.to_owned(),
        frames,
        fps,
    });
}

#[test]
fn reply_registers_a_node_with_the_default_color() {
    let service = service_with_node(1, 1000);
    let nodes = service.list_nodes(RequestNodeList).nodes;
    assert_eq!(nodes.len(), 1);
    assert_eq!(nodes[0].ip, "10.0.0.1");
    assert_eq!(nodes[0].short_name, "torch");
    assert_eq!(nodes[0].long_name, "long");
    assert!(matches!(nodes[0].current, RenderMode::Color(0, 100, 0)));
}

#[test]
fn reply_with_non_text_names_is_skipped() {
    let mut service = Service::new(empty_config());
    let mut bad = reply(1, "t");
    bad.short_name[0] = 0xff; // not valid text
    service.handle(Command::PollReply(bad), addr(1), 1000);
    assert_eq!(service.clients.len(), 0);
}

#[test]
fn second_reply_refreshes_rather_than_duplicates() {
    let mut service = service_with_node(1, 1000);
    service.handle(Command::PollReply(reply(1, "torch")), addr(1), 5000);
    assert_eq!(service.clients.len(), 1);
    assert_eq!(service.clients[0].last_reply_received, 5000);
}

#[test]
fn non_reply_commands_are_ignored() {
    let mut service = Service::new(empty_config());
    service.handle(
        Command::Poll(torch_lights::codec::Poll::default()),
        addr(1),
        1000,
    );
    assert_eq!(service.clients.len(), 0);
}

#[test]
fn sweep_evicts_only_nodes_outside_the_window() {
    let mut service = Service::new(empty_config());
    service.handle(Command::PollReply(reply(1, "old")), addr(1), 1000);
    service.handle(Command::PollReply(reply(2, "new")), addr(2), 20000);
    // At 31000 the first node's 30-second window has just passed.
    service.sweep(31001);
    let nodes = service.list_nodes(RequestNodeList).nodes;
    assert_eq!(nodes.len(), 1);
    assert_eq!(nodes[0].ip, "10.0.0.2");
}

#[test]
fn sweep_keeps_a_node_exactly_at_the_window_edge() {
    let mut service = service_with_node(1, 1000);
    service.sweep(31000); // 1000 + 30000 >= 31000: still live
    assert_eq!(service.clients.len(), 1);
    service.sweep(31001);
    assert_eq!(service.clients.len(), 0);
}

#[test]
fn tick_polls_every_broadcast_target() {
    let mut config = empty_config();
    config.broadcasts = vec![addr(255), Address { ip: [192, 168, 1, 255], port: 6454 }];
    let service = Service::new(config);
    let polls = service.tick();
    assert_eq!(polls.len(), 2);
    assert_eq!(polls[0].0, addr(255));
    assert!(matches!(polls[0].1, Command::Poll(_)));
    assert!(matches!(polls[1].1, Command::Poll(_)));
}

#[test]
fn set_node_color_parses_hex_and_resets_playback() {
    let mut service = service_with_node(1, 1000);
    service.clients[0].current_animation_frame = 3;
    let r = service.set_node_color(SetNodeColor {
        ip: "10.0.0.1".to_owned(),
        color_name: "AaBbCc".to_owned(),
    });
    assert!(r.is_ok());
    assert!(matches!(service.clients[0].current, RenderMode::Color(0xaa, 0xbb, 0xcc)));
    assert_eq!(service.clients[0].current_animation_frame, 0);
    assert_eq!(service.clients[0].millis_since_last_frame, 1000);
}

#[test]
fn set_node_color_rejects_bad_input() {
    let mut service = service_with_node(1, 1000);
    let bad = service.set_node_color(SetNodeColor {
        ip: "10.0.0.1".to_owned(),
        color_name: "xyzxyz".to_owned(),
    });
    assert_eq!(bad, Err(CommandError::InvalidInput));
    let short = service.set_node_color(SetNodeColor {
        ip: "10.0.0.1".to_owned(),
        color_name: "fff".to_owned(),
    });
    assert_eq!(short, Err(CommandError::InvalidInput));
    let missing = service.set_node_color(SetNodeColor {
        ip: "10.0.0.9".to_owned(),
        color_name: "00ff00".to_owned(),
    });
    assert_eq!(missing, Err(CommandError::NotFound));
}

#[test]
fn set_node_animation_needs_a_stored_animation_and_a_known_node() {
    let mut service = service_with_node(1, 1000);
    let missing_anim = service.set_node_animation(SetNodeAnimation {
        ip: "10.0.0.1".to_owned(),
        animation_name: "nope".to_owned(),
    });
    assert_eq!(missing_anim, Err(CommandError::NotFound));
    push_animation(&mut service, "spin", vec![solid_frame(1, 2, 3)], 4);
    let missing_node = service.set_node_animation(SetNodeAnimation {
        ip: "10.0.0.9".to_owned(),
        animation_name: "spin".to_owned(),
    });
    assert_eq!(missing_node, Err(CommandError::NotFound));
    let ok = service.set_node_animation(SetNodeAnimation {
        ip: "10.0.0.1".to_owned(),
        animation_name: "spin".to_owned(),
    });
    assert!(ok.is_ok());
    assert!(matches!(service.clients[0].current, RenderMode::Animation(ref n) if n == "spin"));
    assert_eq!(service.clients[0].current_animation_frame, 0);
    // One whole frame interval accumulated: 1000 / 4.
    assert_eq!(service.clients[0].millis_since_last_frame, 250);
}

#[test]
fn mode_switch_forces_a_frame_on_the_next_tick() {
    let mut service = service_with_node(1, 1000);
    push_animation(&mut service, "spin", vec![solid_frame(1, 2, 3); 3], 4);
    service
        .set_node_animation(SetNodeAnimation {
            ip: "10.0.0.1".to_owned(),
            animation_name: "spin".to_owned(),
        })
        .unwrap();
    let sends = service.render();
    assert_eq!(sends.len(), 1);
}

#[test]
fn color_node_renders_at_one_frame_per_second() {
    let mut service = service_with_node(1, 1000);
    let mut sends_total = 0;
    for _ in 0..31 {
        sends_total += service.render().len();
    }
    // 31 ticks of 33 ms carry 1023 virtual milliseconds: one frame.
    assert_eq!(sends_total, 1);
}

#[test]
fn color_frame_payload_is_the_flattened_grid_less_the_protocol_prefix() {
    let mut service = service_with_node(1, 1000);
    service
        .set_node_color(SetNodeColor {
            ip: "10.0.0.1".to_owned(),
            color_name: "014020".to_owned(),
        })
        .unwrap();
    let sends = service.render();
    assert_eq!(sends.len(), 1);
    assert_eq!(sends[0].0, addr(1));
    match &sends[0].1 {
        Command::Output(out) => {
            assert_eq!(out.length, 450);
            assert_eq!(out.data.len(), 450);
            // The first twelve bytes of the flattened buffer are stripped;
            // 12 is a multiple of three, so the payload starts on a red
            // channel.
            assert_eq!(&out.data[..6], &[0x01, 0x40, 0x20, 0x01, 0x40, 0x20]);
            assert_eq!(out.data[447..], [0x01, 0x40, 0x20]);
        }
        other => panic!("expected an Output, got {:?}", other),
    }
}

#[test]
fn missing_animation_skips_the_node_and_resets_its_cursor() {
    let mut service = service_with_node(1, 1000);
    service.clients[0].current = RenderMode::Animation("gone".to_owned());
    service.clients[0].current_animation_frame = 5;
    service.clients[0].millis_since_last_frame = 900;
    let sends = service.render();
    assert_eq!(sends.len(), 0);
    assert_eq!(service.clients[0].current_animation_frame, 0);
    // The accumulator is untouched when the node is skipped.
    assert_eq!(service.clients[0].millis_since_last_frame, 900);
}

#[test]
fn stale_cursor_after_a_shrunken_animation_is_reset_not_a_fault() {
    let mut service = service_with_node(1, 1000);
    push_animation(&mut service, "short", vec![solid_frame(1, 1, 1)], 2);
    service.clients[0].current = RenderMode::Animation("short".to_owned());
    service.clients[0].current_animation_frame = 7; // beyond the single frame
    let sends = service.render();
    assert_eq!(sends.len(), 0);
    assert_eq!(service.clients[0].current_animation_frame, 0);
}

#[test]
fn send_failure_resets_the_cursor_but_keeps_the_node() {
    let mut service = service_with_node(1, 1000);
    service.clients[0].current_animation_frame = 2;
    service.note_send_failure(addr(1));
    assert_eq!(service.clients.len(), 1);
    assert_eq!(service.clients[0].current_animation_frame, 0);
}

#[test]
fn playback_rate_is_held_over_a_long_run() {
    // A 10-frame-per-second animation sampled by 33-millisecond ticks:
    // after 100 ticks, 3300 virtual milliseconds have passed, and
    // 3300 * 10 / 1000 = 33 frames must have gone out.
    let mut service = service_with_node(1, 1000);
    push_animation(&mut service, "fast", vec![solid_frame(9, 9, 9); 4], 10);
    service.clients[0].current = RenderMode::Animation("fast".to_owned());
    service.clients[0].current_animation_frame = 0;
    service.clients[0].millis_since_last_frame = 0;
    let mut sends_total = 0;
    for _ in 0..100 {
        sends_total += service.render().len();
    }
    assert_eq!(sends_total, 33);
}

#[test]
fn add_animation_feeds_the_store() {
    let mut service = Service::new(empty_config());
    let r = service.add_animation(AddAnimation {
        name: "up".to_owned(),
        files: vec![("zero.notbmp".to_owned(), vec![1, 2, 3])],
    });
    // A bundle with no frames is rejected and the store stays empty.
    assert_eq!(r, Err(CommandError::InvalidFormat));
    assert_eq!(service.list_animations(RequestAnimationList).animations.len(), 0);
}

#[test]
fn list_animations_reports_name_and_rate() {
    let mut service = Service::new(empty_config());
    push_animation(&mut service, "one", vec![solid_frame(0, 0, 0)], 5);
    push_animation(&mut service, "two", vec![solid_frame(0, 0, 0); 2], 9);
    let list = service.list_animations(RequestAnimationList).animations;
    assert_eq!(list.len(), 2);
    assert_eq!(list[0].name, "one");
    assert_eq!(list[0].fps, 5);
    assert_eq!(list[1].name, "two");
    assert_eq!(list[1].fps, 9);
}

#[test]
fn full_scenario_discovery_switch_and_playback() {
    // An empty registry and a store holding "rainbow": four frames at two
    // frames per second.
    let mut service = Service::new(empty_config());
    push_animation(&mut service, "rainbow", vec![solid_frame(50, 0, 0); 4], 2);
    // A reply arrives from a new node.
    service.handle(Command::PollReply(reply(7, "torch")), addr(7), 1000);
    let nodes = service.list_nodes(RequestNodeList).nodes;
    assert_eq!(nodes.len(), 1);
    assert!(matches!(nodes[0].current, RenderMode::Color(0, 100, 0)));
    // Switch it to the animation.
    service
        .set_node_animation(SetNodeAnimation {
            ip: "10.0.0.7".to_owned(),
            animation_name: "rainbow".to_owned(),
        })
        .unwrap();
    // Run one second's worth of ticks at 33-millisecond granularity.
    let mut sends_total = 0;
    for _ in 0..30 {
        sends_total += service.render().len();
    }
    // Two frames per second: exactly two Output sends, and the cursor has
    // advanced past two of the four frames.
    assert_eq!(sends_total, 2);
    assert_eq!(service.clients[0].current_animation_frame, 2);
}
