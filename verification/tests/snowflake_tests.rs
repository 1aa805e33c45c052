use sqltree::snowflake::{new_snowflake_id, Snowflake};

#[test]
fn test_gen() {
    let mut flake = Snowflake::default();
    println!("{}", new_snowflake_id(&mut flake));
}

#[test]
fn test_generate_no_clock_back() {
    let mut snowflake = Snowflake::default();
    let id1 = snowflake.generate();
    let id2 = snowflake.generate();

    assert_ne!(id1, id2);
}

#[test]
fn test_generate_clock_back() {
    let mut snowflake = Snowflake::default();
    let initial_timestamp = snowflake.get_time();
    snowflake.set_epoch(initial_timestamp - 100000000000000000);

    let initial_id = snowflake.generate();

    snowflake.set_epoch(initial_timestamp - 200000000000000000);

    let new_id = snowflake.generate();
    assert!(new_id > initial_id);
}

#[test]
fn test_compose_id_parts() {
    // timestamp 1, worker 1, datacenter 1, sequence 1
    let id = sqltree::snowflake::compose_id(1, 1, 1, 1);
    assert_eq!(id, (1i64 << 22) | (1 << 17) | (1 << 12) | 1);
}

#[test]
fn test_sequence_advances() {
    let mut flake = Snowflake::new(0, 3, 4);
    assert_eq!(flake.sequence, 0);
    flake.generate();
    assert_eq!(flake.sequence, 1);
    flake.generate();
    assert_eq!(flake.sequence, 2);
}
