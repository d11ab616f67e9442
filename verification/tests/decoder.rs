use flow_aggregator::DecoderCache;

/// One NetFlow version 5 datagram with a single flow from 10.0.0.1 to
/// 10.0.0.2, destination port 80, protocol 6.
fn v5_datagram() -> Vec<u8> {
    let mut bytes = vec![
        0, 5, // version
        0, 1, // one flow
        0, 0, 0, 1, // uptime
        0, 0, 0, 2, // seconds
        0, 0, 0, 3, // nanoseconds
        0, 0, 0, 4, // sequence
        0, 0, // engine
        0, 0, // sampling
    ];
    bytes.extend_from_slice(&[
        10, 0, 0, 1, // source
        10, 0, 0, 2, // destination
        0, 0, 0, 0, // next hop
        0, 0, 0, 0, // interfaces
        0, 0, 0, 1, // packets
        0, 0, 0, 64, // octets
        0, 0, 0, 1, // first
        0, 0, 0, 2, // last
        0x30, 0x39, // source port
        0, 80, // destination port
        0, 0, // padding, flags
        6, 0, // protocol, type of service
        0, 0, 0, 0, // systems
        0, 0, 0, 0, // masks, padding
    ]);
    bytes
}

#[test]
fn decode_yields_the_flow_of_a_datagram() {
    let mut cache = DecoderCache::new();
    let flows = cache.decode(&String::from("192.0.2.1:2055"), &v5_datagram());
    assert_eq!(flows.len(), 1);
    assert_eq!(flows[0].dst_port, Some(80));
    assert_eq!(flows[0].protocol_number, Some(6));
    assert_eq!(flows[0].src_addr.map(|a| a.to_string()), Some(String::from("10.0.0.1")));
    assert_eq!(flows[0].dst_addr.map(|a| a.to_string()), Some(String::from("10.0.0.2")));
}

#[test]
fn decode_keeps_one_decoder_per_peer() {
    let first = String::from("192.0.2.1:2055");
    let second = String::from("192.0.2.2:2055");
    let mut cache = DecoderCache::new();
    assert_eq!(cache.len(), 0);
    assert!(!cache.knows(&first));
    cache.decode(&first, &v5_datagram());
    assert_eq!(cache.len(), 1);
    assert!(cache.knows(&first));
    assert!(!cache.knows(&second));
    cache.decode(&first, &v5_datagram());
    assert_eq!(cache.len(), 1);
    cache.decode(&second, &[]);
    assert_eq!(cache.len(), 2);
    assert!(cache.knows(&second));
    cache.decode(&first, &[1, 2, 3]);
    assert_eq!(cache.len(), 2);
}

#[test]
fn decode_of_malformed_bytes_yields_no_flow() {
    let mut cache = DecoderCache::new();
    let peer = String::from("192.0.2.1:2055");
    assert!(cache.decode(&peer, &[]).is_empty());
    assert!(cache.decode(&peer, &[0xff; 7]).is_empty());
    assert!(cache.decode(&peer, &[0, 5, 0, 1, 0]).is_empty());
    let mut cut = v5_datagram();
    cut.truncate(40);
    assert!(cache.decode(&peer, &cut).is_empty());
    assert_eq!(cache.decode(&peer, &v5_datagram()).len(), 1);
}

/// A NetFlow version 9 datagram that only teaches template 258: source and
/// destination address, destination port, protocol, type of service.
fn v9_template() -> Vec<u8> {
    vec![
        0, 9, 0, 1, // version, one record
        0, 0, 9, 9, 0, 1, 2, 3, 0, 0, 0, 1, 0, 0, 0, 1, // uptime, seconds, sequence, source
        0, 0, 0, 28, // template flowset, its length
        1, 2, 0, 5, // template 258, five fields
        0, 8, 0, 4, // source address
        0, 12, 0, 4, // destination address
        0, 11, 0, 2, // destination port
        0, 4, 0, 1, // protocol
        0, 5, 0, 1, // type of service
    ]
}

/// A NetFlow version 9 datagram with one flow that only template 258 explains:
/// from 10.0.0.1 to 10.0.0.2, destination port 80, protocol 6.
fn v9_data() -> Vec<u8> {
    vec![
        0, 9, 0, 1, // version, one record
        0, 0, 9, 9, 0, 1, 2, 4, 0, 0, 0, 2, 0, 0, 0, 1, // uptime, seconds, sequence, source
        1, 2, 0, 16, // data of template 258, length
        10, 0, 0, 1, // source address
        10, 0, 0, 2, // destination address
        0, 80, // destination port
        6, // protocol
        0, // type of service
    ]
}

#[test]
fn decode_keeps_what_a_peer_has_taught_its_decoder() {
    let first = String::from("192.0.2.1:2055");
    let second = String::from("192.0.2.2:2055");
    let mut cache = DecoderCache::new();

    // the template alone holds no flow
    assert!(cache.decode(&first, &v9_template()).is_empty());

    // the data of the peer that sent the template is understood
    let flows = cache.decode(&first, &v9_data());
    assert_eq!(flows.len(), 1);
    assert_eq!(flows[0].dst_port, Some(80));
    assert_eq!(flows[0].protocol_number, Some(6));
    assert_eq!(flows[0].src_addr.map(|a| a.to_string()), Some(String::from("10.0.0.1")));
    assert_eq!(flows[0].dst_addr.map(|a| a.to_string()), Some(String::from("10.0.0.2")));

    // the same data from a peer that sent no template is not
    assert!(cache.decode(&second, &v9_data()).is_empty());

    // and the first peer's decoder has lost nothing meanwhile
    assert_eq!(cache.decode(&first, &v9_data()).len(), 1);
    assert_eq!(cache.len(), 2);
}

#[test]
fn decoders_of_two_peers_learn_apart() {
    let first = String::from("192.0.2.1:2055");
    let second = String::from("192.0.2.2:2055");
    let mut cache = DecoderCache::new();
    assert!(cache.decode(&second, &v9_data()).is_empty());
    assert!(cache.decode(&first, &v9_template()).is_empty());
    assert!(cache.decode(&second, &v9_data()).is_empty());
    assert!(cache.decode(&second, &v9_template()).is_empty());
    assert_eq!(cache.decode(&second, &v9_data()).len(), 1);
    assert_eq!(cache.decode(&first, &v9_data()).len(), 1);
}
