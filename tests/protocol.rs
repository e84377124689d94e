use cube_sync::body::{Body, ONE_BITS};
use cube_sync::decode::{parse_packet, BodyUpdate, DecodeError};
use cube_sync::simulation::Simulation;

fn bits3(v: [f32; 3]) -> [u32; 3] {
    [v[0].to_bits(), v[1].to_bits(), v[2].to_bits()]
}

fn rotation(angle: f32) -> [u32; 12] {
    let (s, c) = angle.sin_cos();
    let m = [c, -s, 0.0, 0.0, s, c, 0.0, 0.0, 0.0, 0.0, 1.0, 0.0];
    let mut r = [0u32; 12];
    for i in 0..12 {
        r[i] = f32::to_bits(m[i]);
    }
    r
}

fn body(position: [f32; 3], angle: f32, velocity: [f32; 3], mass: f32) -> Body {
    Body {
        position: bits3(position),
        rotation: rotation(angle),
        velocity: bits3(velocity),
        mass: mass.to_bits(),
    }
}

fn world(bodies: Vec<Body>, paused: bool) -> Simulation {
    Simulation { bodies, paused }
}

fn sample_world() -> Simulation {
    world(
        vec![
            body([0.0, 1.0, 0.0], 0.0, [0.0, 0.0, 0.0], 10.0),
            body([2.5, 3.0, -4.0], 0.7, [0.0, -3.2, 0.0], 1.0),
            body([-1.0, 0.25, 8.0], 1.3, [0.05, -0.05, 0.0], 2.0),
        ],
        false,
    )
}

#[test]
fn steady_state_rest_scenario() {
    let server = world(
        vec![
            body([0.0, 0.5, 0.0], 0.0, [0.0, 0.0, 0.0], 1.0),
            body([2.0, 0.5, 0.0], 0.0, [0.01, 0.0, -0.02], 1.0),
            body([4.0, 0.5, 0.0], 0.0, [0.0, 0.1, 0.0], 1.0),
        ],
        false,
    );
    let bytes = server.serialize(false);
    assert_eq!(bytes, vec![0u8, 0, 3, 0, 0, 0, 0, 0, 0]);

    let mut client = world(
        vec![
            body([9.0, 9.0, 9.0], 0.3, [0.0, 0.0, 0.0], 1.0),
            body([8.0, 8.0, 8.0], 0.4, [0.0, 0.0, 0.0], 1.0),
            body([7.0, 7.0, 7.0], 0.5, [0.0, 0.0, 0.0], 1.0),
        ],
        true,
    );
    let before = client.bodies.clone();
    assert_eq!(client.deserialize(&bytes), Ok(()));
    assert_eq!(client.bodies, before);
    assert!(!client.paused);
}

#[test]
fn initial_packet_round_trips_into_empty_world() {
    let server = sample_world();
    let bytes = server.serialize(true);
    assert_eq!(bytes.len(), 2 + 4 + 3 * 65);
    let mut client = Simulation::init();
    assert_eq!(client.deserialize(&bytes), Ok(()));
    assert!(!client.paused);
    assert_eq!(client.bodies.len(), 3);
    for i in 0..3 {
        assert_eq!(client.bodies[i].position, server.bodies[i].position);
        assert_eq!(client.bodies[i].rotation, server.bodies[i].rotation);
        assert_eq!(client.bodies[i].mass, server.bodies[i].mass);
        assert_eq!(client.bodies[i].velocity, [0, 0, 0]);
    }
}

#[test]
fn trailing_bytes_are_ignored() {
    let server = sample_world();
    let mut bytes = server.serialize(true);
    bytes.extend_from_slice(&[0xff; 40]);
    let mut client = Simulation::init();
    assert_eq!(client.deserialize(&bytes), Ok(()));
    assert_eq!(client.bodies.len(), 3);
    assert_eq!(client.bodies[2].position, server.bodies[2].position);
}

#[test]
fn resting_body_is_elided_and_left_alone() {
    let server = sample_world();
    let bytes = server.serialize(false);
    // body 0 and body 2 are at rest, body 1 moves
    assert_eq!(bytes.len(), 2 + 4 + 1 + 61 + 1);
    assert_eq!(bytes[6], 0);
    assert_eq!(bytes[7], 1);
    assert_eq!(bytes[68], 0);

    let mut client = world(
        vec![
            body([5.0, 5.0, 5.0], 0.1, [0.0, 0.0, 0.0], 10.0),
            body([6.0, 6.0, 6.0], 0.2, [0.0, 0.0, 0.0], 1.0),
            body([7.0, 7.0, 7.0], 0.3, [0.0, 0.0, 0.0], 2.0),
        ],
        true,
    );
    let before = client.bodies.clone();
    assert_eq!(client.deserialize(&bytes), Ok(()));
    assert_eq!(client.bodies[0], before[0]);
    assert_eq!(client.bodies[2], before[2]);
    assert_eq!(client.bodies[1].position, server.bodies[1].position);
    assert_eq!(client.bodies[1].rotation, server.bodies[1].rotation);
    assert_eq!(client.bodies[1].mass, before[1].mass);
}

#[test]
fn paused_heartbeat_is_two_bytes() {
    for n in [0usize, 1, 5, 100] {
        let mut sim = Simulation::init();
        for i in 0..n {
            sim.create_cube(1.0f32.to_bits(), bits3([i as f32, 3.0, 0.0]));
        }
        assert!(sim.paused);
        assert_eq!(sim.serialize(false), vec![1u8, 0]);
    }
}

#[test]
fn paused_initial_packet_still_carries_bodies() {
    let mut server = sample_world();
    server.toggle_pause();
    let bytes = server.serialize(true);
    assert_eq!(bytes[0], 1);
    assert_eq!(bytes[1], 1);
    assert_eq!(bytes.len(), 2 + 4 + 3 * 65);
    let mut client = Simulation::init();
    client.toggle_pause();
    assert_eq!(client.deserialize(&bytes), Ok(()));
    assert!(client.paused);
    assert_eq!(client.bodies.len(), 3);
}

#[test]
fn paused_heartbeat_decodes_to_pause_only() {
    let server = sample_world();
    let mut client = world(server.bodies.clone(), false);
    assert_eq!(client.deserialize(&[1u8, 0]), Ok(()));
    assert!(client.paused);
    assert_eq!(client.bodies, server.bodies);
}

#[test]
fn every_truncation_is_malformed() {
    for init in [false, true] {
        let server = sample_world();
        let bytes = server.serialize(init);
        for k in 0..bytes.len() {
            let mut client = world(sample_world().bodies, true);
            let before = client.bodies.clone();
            assert_eq!(client.deserialize(&bytes[..k]), Err(DecodeError::MalformedPacket));
            assert_eq!(client.bodies, before);
            assert!(client.paused);
        }
    }
}

#[test]
fn declared_count_beyond_buffer_is_malformed() {
    let bytes = [0u8, 0, 0xff, 0xff, 0xff, 0xff, 0, 0];
    assert_eq!(parse_packet(&bytes), Err(DecodeError::MalformedPacket));
    assert_eq!(parse_packet(&[]), Err(DecodeError::MalformedPacket));
    assert_eq!(parse_packet(&[0u8]), Err(DecodeError::MalformedPacket));
    assert_eq!(parse_packet(&[0u8, 1, 0, 0]), Err(DecodeError::MalformedPacket));
}

#[test]
fn growth_is_monotonic_over_increasing_counts() {
    let mut server = Simulation::init();
    server.toggle_pause();
    let mut client = Simulation::init();
    let mut sizes = Vec::new();
    for n in 1..=4usize {
        server.create_cube((n as f32).to_bits(), bits3([n as f32, 1.0, 0.0]));
        let bytes = server.serialize(true);
        assert_eq!(client.deserialize(&bytes), Ok(()));
        sizes.push(client.bodies.len());
        for i in 0..n {
            assert_eq!(client.bodies[i].mass, ((i + 1) as f32).to_bits());
        }
    }
    assert_eq!(sizes, vec![1, 2, 3, 4]);
    // an older, smaller packet arriving late never shrinks the mirror
    let mut old_server = Simulation::init();
    old_server.toggle_pause();
    old_server.create_cube(1.0f32.to_bits(), bits3([1.0, 1.0, 0.0]));
    assert_eq!(client.deserialize(&old_server.serialize(true)), Ok(()));
    assert_eq!(client.bodies.len(), 4);
}

#[test]
fn steady_state_creation_uses_unit_mass() {
    let server = world(vec![body([1.0, 2.0, 3.0], 0.2, [0.0, 5.0, 0.0], 7.0)], false);
    let mut client = Simulation::init();
    assert_eq!(client.deserialize(&server.serialize(false)), Ok(()));
    assert_eq!(client.bodies.len(), 1);
    assert_eq!(client.bodies[0].mass, ONE_BITS);
    assert_eq!(client.bodies[0].mass, 1.0f32.to_bits());
    assert_eq!(client.bodies[0].position, server.bodies[0].position);
}

#[test]
fn record_past_the_end_is_ignored() {
    // body 0 at rest, body 1 moving: a client with no bodies cannot place body 1
    let server = world(
        vec![
            body([0.0, 0.5, 0.0], 0.0, [0.0, 0.0, 0.0], 1.0),
            body([1.0, 2.0, 3.0], 0.2, [0.0, 5.0, 0.0], 7.0),
        ],
        false,
    );
    let mut client = Simulation::init();
    assert_eq!(client.deserialize(&server.serialize(false)), Ok(()));
    assert_eq!(client.bodies.len(), 0);
    assert!(!client.paused);
}

#[test]
fn words_are_little_endian() {
    let server = world(vec![body([1.0, -2.0, 0.5], 0.0, [0.0, 0.0, 0.0], 3.0)], false);
    let bytes = server.serialize(true);
    assert_eq!(&bytes[..7], &[0u8, 1, 1, 0, 0, 0, 1][..]);
    assert_eq!(&bytes[7..11], &1.0f32.to_le_bytes()[..]);
    assert_eq!(&bytes[7..11], &[0u8, 0, 0x80, 0x3f][..]);
    assert_eq!(&bytes[11..15], &(-2.0f32).to_le_bytes()[..]);
    assert_eq!(bytes.len(), 71);
    assert_eq!(&bytes[67..71], &3.0f32.to_le_bytes()[..]);

    let packet = parse_packet(&bytes).unwrap();
    assert!(!packet.paused);
    assert!(packet.initial);
    assert_eq!(
        packet.updates,
        vec![Some(BodyUpdate {
            position: server.bodies[0].position,
            rotation: server.bodies[0].rotation,
            mass: Some(3.0f32.to_bits()),
        })]
    );
}

#[test]
fn body_count_is_little_endian() {
    let mut server = Simulation::init();
    for _ in 0..258 {
        server.create_cube(1.0f32.to_bits(), [0, 0, 0]);
    }
    let bytes = server.serialize(true);
    assert_eq!(&bytes[2..6], &[2u8, 1, 0, 0][..]);
    let packet = parse_packet(&bytes).unwrap();
    assert_eq!(packet.updates.len(), 258);
}

#[test]
fn nonzero_flag_bytes_read_as_true() {
    let server = world(vec![body([1.0, 2.0, 3.0], 0.2, [0.0, 5.0, 0.0], 7.0)], false);
    let mut bytes = server.serialize(false);
    bytes[6] = 7;
    let mut client = Simulation::init();
    assert_eq!(client.deserialize(&bytes), Ok(()));
    assert_eq!(client.bodies.len(), 1);
    assert_eq!(client.deserialize(&[2u8, 0]), Ok(()));
    assert!(client.paused);
}

#[test]
fn rest_test_matches_float_comparison() {
    let samples = [
        0.0f32, -0.0, 0.05, -0.05, 0.1, -0.1, 0.100_000_01, -0.100_000_01, 0.099_999_99, 1.0,
        -3.5, 1e-30, f32::INFINITY, f32::NEG_INFINITY, f32::NAN, -f32::NAN, f32::MIN_POSITIVE,
    ];
    for &x in samples.iter() {
        for &y in [0.0f32, 0.1, 0.2].iter() {
            let b = body([0.0, 0.0, 0.0], 0.0, [x, y, 0.0], 1.0);
            let expected = x.abs() <= 0.1f32 && y.abs() <= 0.1f32;
            assert_eq!(b.is_at_rest(), expected, "x = {}, y = {}", x, y);
            let b = body([0.0, 0.0, 0.0], 0.0, [y, 0.0, x], 1.0);
            assert_eq!(b.is_at_rest(), expected);
        }
    }
}

#[test]
fn new_body_is_unturned_and_still() {
    let b = Body::new(2.0f32.to_bits(), bits3([1.0, 2.0, 3.0]));
    let one = 1.0f32.to_bits();
    assert_eq!(b.rotation, [one, 0, 0, 0, 0, one, 0, 0, 0, 0, one, 0]);
    assert_eq!(b.velocity, [0, 0, 0]);
    assert_eq!(b.position, bits3([1.0, 2.0, 3.0]));
    assert_eq!(b.mass, 2.0f32.to_bits());
    assert!(b.is_at_rest());
}

#[test]
fn world_accessors() {
    let mut sim = Simulation::init();
    assert!(sim.is_paused());
    sim.toggle_pause();
    assert!(!sim.is_paused());
    sim.create_cube(10.0f32.to_bits(), bits3([0.0, 1.0, 0.0]));
    sim.create_cube(1.0f32.to_bits(), bits3([2.0, 3.0, 0.0]));
    assert_eq!(sim.body_count(), 2);
    assert_eq!(sim.get_location(1), bits3([2.0, 3.0, 0.0]));
    sim.set_motion(1, bits3([4.0, 5.0, 6.0]), rotation(0.5), bits3([1.0, 0.0, 0.0]));
    let b = sim.body(1);
    assert_eq!(b.position, bits3([4.0, 5.0, 6.0]));
    assert_eq!(b.rotation, rotation(0.5));
    assert_eq!(b.velocity, bits3([1.0, 0.0, 0.0]));
    assert_eq!(b.mass, 1.0f32.to_bits());
    assert_eq!(sim.body(0).mass, 10.0f32.to_bits());
}
