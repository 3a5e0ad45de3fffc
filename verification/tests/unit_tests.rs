//! Tests of the library's logic without a live DPDK process: counter
//! deltas, the history ring, response interpretation, mempool occupancy,
//! formatting, alerts and dashboard decisions.

use dpdk_telemetry::alerts::{link_down_message, mempool_alert_kind, port_alert_kinds, AlertKind, AlertSeverity};
use dpdk_telemetry::discovery::{
    components_of, contains_path, dedup_by_canonical, has_telemetry_name, order_sockets, path_less, paths_equal,
    sort_paths, NORMAL, ROOT_DIR,
};
use dpdk_telemetry::format::format_int;
use dpdk_telemetry::history::RingBuffer;
use dpdk_telemetry::model::mempool::{MempoolInfo, MempoolState};
use dpdk_telemetry::model::port::{LinkStatus, PortInfo, PortStats};
use dpdk_telemetry::poll::{
    needs_baseline, plan_port_discovery, poller_step, queue_count, take_sample, PollerAction, PollerEvent, PollerPhase,
    PollerState, PortSlot, SampleStep,
};
use dpdk_telemetry::protocol::{
    parse_ethdev_info, parse_ethdev_list, parse_ethdev_stats, parse_ethdev_xstats, parse_mempool_info,
    parse_mempool_list, ethdev_list_of, ethdev_xstats_of, mempool_list_of, parse_response, EthdevInfoRaw, JsonValue,
    MempoolInfoRaw, ProtocolError,
};
use dpdk_telemetry::rates::{delta, parse_queue_id, port_stats_delta, queue_counter_updates, QueueCounterUpdate, QueueField};
use dpdk_telemetry::ui::{
    column_glyph, dashboard_heights, footer_tabs, handle_key, help_area, instance_label, link_label, move_port_selection,
    next_screen, pci_column, port_info_lines, prev_screen, sort_by_name, sparkline_label_width, xstat_line, Key,
    Screen, TuiAction,
    TuiState, UiRect,
};

fn items<const N: usize>(r: &RingBuffer<u32, N>) -> Vec<u32> {
    let mut it = r.iter();
    let mut v = Vec::new();
    while let Some(x) = it.next() {
        v.push(*x);
    }
    v
}

// ---- rates ----

#[test]
fn test_delta_wrap() {
    assert_eq!(delta(10, 5), 5);
    assert_eq!(delta(0, u64::MAX), 1);
    assert_eq!(delta(100, 90), 10);
}

#[test]
fn delta_normal() {
    assert_eq!(delta(100, 50), 50);
    assert_eq!(delta(0, 0), 0);
    assert_eq!(delta(1_000_000, 999_999), 1);
}

#[test]
fn delta_wraps_on_overflow() {
    assert_eq!(delta(0, u64::MAX), 1);
    assert_eq!(delta(5, u64::MAX - 4), 10);
    assert_eq!(delta(0, u64::MAX - 99), 100);
}

#[test]
fn delta_added_back_gives_current() {
    for (c, p) in [(7u64, 3u64), (3, 7), (0, u64::MAX), (u64::MAX, 0), (42, 42)] {
        assert_eq!(p.wrapping_add(delta(c, p)), c);
    }
}

#[test]
fn port_stats_delta_per_field() {
    let prev = PortStats { ipackets: 1000, opackets: 500, ibytes: 500_000, obytes: 250_000, imissed: 100, rx_nombuf: 0, ierrors: 10, oerrors: 5 };
    let curr = PortStats { ipackets: 2000, opackets: 600, ibytes: 1_000_000, obytes: 300_000, imissed: 200, rx_nombuf: 50, ierrors: 30, oerrors: 15 };
    let d = port_stats_delta(&curr, &prev);
    assert_eq!(d, PortStats { ipackets: 1000, opackets: 100, ibytes: 500_000, obytes: 50_000, imissed: 100, rx_nombuf: 50, ierrors: 20, oerrors: 10 });
}

#[test]
fn port_stats_delta_counter_wrap() {
    let prev = PortStats { ipackets: u64::MAX - 99, ..Default::default() };
    let curr = PortStats { ipackets: 100, ..Default::default() };
    assert_eq!(port_stats_delta(&curr, &prev).ipackets, 200);
}

fn xs(pairs: &[(&str, u64)]) -> Vec<(String, u64)> {
    pairs.iter().map(|(n, v)| (n.to_string(), *v)).collect()
}

#[test]
fn queue_updates_parse_queue_names() {
    let prev = xs(&[("rx_q0_packets", 100), ("rx_q0_bytes", 50_000), ("rx_q1_packets", 200), ("tx_q0_packets", 50)]);
    let curr = xs(&[("rx_q0_packets", 200), ("rx_q0_bytes", 100_000), ("rx_q1_packets", 500), ("tx_q0_packets", 150)]);
    let u = queue_counter_updates(&curr, &prev, 4);
    assert_eq!(u.len(), 4);
    assert_eq!((u[0].queue, u[0].field, u[0].value, u[0].delta), (0, QueueField::RxPackets, 200, 100));
    assert_eq!((u[1].queue, u[1].field, u[1].value, u[1].delta), (0, QueueField::RxBytes, 100_000, 50_000));
    assert_eq!((u[2].queue, u[2].field, u[2].value, u[2].delta), (1, QueueField::RxPackets, 500, 300));
    assert_eq!((u[3].queue, u[3].field, u[3].value, u[3].delta), (0, QueueField::TxPackets, 150, 100));
}

#[test]
fn queue_updates_tx_bytes() {
    let prev = xs(&[("tx_q0_bytes", 1_000_000), ("tx_q0_packets", 100)]);
    let curr = xs(&[("tx_q0_bytes", 2_000_000), ("tx_q0_packets", 200)]);
    let u = queue_counter_updates(&curr, &prev, 2);
    assert_eq!(u.len(), 2);
    assert_eq!((u[0].field, u[0].delta), (QueueField::TxBytes, 1_000_000));
    assert_eq!((u[1].field, u[1].delta), (QueueField::TxPackets, 100));
}

#[test]
fn queue_updates_ignore_out_of_range_queue_ids() {
    let prev = xs(&[("rx_q99_packets", 0)]);
    let curr = xs(&[("rx_q99_packets", 1000)]);
    assert!(queue_counter_updates(&curr, &prev, 4).is_empty());
}

#[test]
fn queue_updates_missing_previous_counts_from_zero() {
    let curr = xs(&[("rx_q0_packets", 500)]);
    let u = queue_counter_updates(&curr, &Vec::new(), 2);
    assert_eq!(u.len(), 1);
    assert_eq!(u[0].delta, 500);
}

#[test]
fn queue_updates_skip_other_names() {
    let curr = xs(&[("rx_good_packets", 5), ("rx_q_packets", 1), ("rx_qx_bytes", 2), ("tx_q1_errors", 3), ("tx_q+1_bytes", 9)]);
    let u = queue_counter_updates(&curr, &Vec::new(), 4);
    assert_eq!(u.len(), 1);
    assert_eq!((u[0].queue, u[0].field, u[0].value), (1, QueueField::TxBytes, 9));
}

#[test]
fn parse_queue_id_follows_usize_parsing() {
    assert_eq!(parse_queue_id("rx_q3_packets", "rx_q", "_packets"), Some(3));
    assert_eq!(parse_queue_id("rx_q007_packets", "rx_q", "_packets"), Some(7));
    assert_eq!(parse_queue_id("rx_q+2_packets", "rx_q", "_packets"), Some(2));
    assert_eq!(parse_queue_id("rx_q-2_packets", "rx_q", "_packets"), None);
    assert_eq!(parse_queue_id("rx_q+_packets", "rx_q", "_packets"), None);
    assert_eq!(parse_queue_id("rx_q_packets", "rx_q", "_packets"), None);
    assert_eq!(parse_queue_id("tx_q3_packets", "rx_q", "_packets"), None);
    assert_eq!(parse_queue_id("rx_q3_bytes", "rx_q", "_packets"), None);
    assert_eq!(parse_queue_id("rx_q99999999999999999999999_packets", "rx_q", "_packets"), None);
    assert_eq!(
        parse_queue_id(&format!("rx_q{}_packets", usize::MAX), "rx_q", "_packets"),
        Some(usize::MAX)
    );
}

// ---- history ----

#[test]
fn ring_buffer_basic() {
    let mut r: RingBuffer<u32, 4> = RingBuffer::new();
    r.push(1);
    r.push(2);
    r.push(3);
    let v: Vec<u32> = items(&r);
    assert_eq!(v, [1, 2, 3]);
    r.push(4);
    r.push(5);
    let v: Vec<u32> = items(&r);
    assert_eq!(v, [2, 3, 4, 5]);
}

#[test]
fn empty_ring_buffer() {
    let r: RingBuffer<u32, 4> = RingBuffer::new();
    assert_eq!(r.len(), 0);
    assert_eq!(r.capacity(), 4);
    assert_eq!(items(&r).len(), 0);
}

#[test]
fn push_within_capacity() {
    let mut r: RingBuffer<u32, 4> = RingBuffer::new();
    r.push(10);
    r.push(20);
    r.push(30);
    assert_eq!(r.len(), 3);
    let v: Vec<u32> = items(&r);
    assert_eq!(v, vec![10, 20, 30]);
}

#[test]
fn push_wraps_around() {
    let mut r: RingBuffer<u32, 3> = RingBuffer::new();
    r.push(1);
    r.push(2);
    r.push(3);
    r.push(4);
    assert_eq!(r.len(), 3);
    let v: Vec<u32> = items(&r);
    assert_eq!(v, vec![2, 3, 4]);
}

#[test]
fn push_many_wraps() {
    let mut r: RingBuffer<u32, 2> = RingBuffer::new();
    for i in 0..100 {
        r.push(i);
    }
    assert_eq!(r.len(), 2);
    let v: Vec<u32> = items(&r);
    assert_eq!(v, vec![98, 99]);
}

#[test]
fn last_n_returns_newest() {
    let mut r: RingBuffer<u32, 5> = RingBuffer::new();
    for i in 1..=10 {
        r.push(i);
    }
    let last3: Vec<u32> = r.last_n(3).iter().map(|&&v| v).collect();
    assert_eq!(last3, vec![8, 9, 10]);
}

#[test]
fn last_n_more_than_len() {
    let mut r: RingBuffer<u32, 10> = RingBuffer::new();
    r.push(1);
    r.push(2);
    let last = r.last_n(100);
    assert_eq!(last.len(), 2);
}

#[test]
fn last_n_of_partly_filled_ring_is_newest() {
    let mut r: RingBuffer<u32, 10> = RingBuffer::new();
    for i in 1..=5 {
        r.push(i);
    }
    let last2: Vec<u32> = r.last_n(2).iter().map(|&&v| v).collect();
    assert_eq!(last2, vec![4, 5]);
}

#[test]
fn copy_last_n_works() {
    let mut r: RingBuffer<u32, 4> = RingBuffer::new();
    r.push(10);
    r.push(20);
    r.push(30);
    r.push(40);
    r.push(50);
    let mut out = [0u32; 3];
    r.copy_last_n(&mut out);
    assert_eq!(out, [30, 40, 50]);
}

#[test]
fn copy_last_n_leaves_rest_of_slice() {
    let mut r: RingBuffer<u32, 8> = RingBuffer::new();
    r.push(1);
    r.push(2);
    let mut out = [9u32; 4];
    r.copy_last_n(&mut out);
    assert_eq!(out, [1, 2, 9, 9]);
    let mut small = [0u32; 1];
    r.copy_last_n(&mut small);
    assert_eq!(small, [2]);
}

#[test]
fn is_empty_reflects_state() {
    let mut r: RingBuffer<u32, 4> = RingBuffer::new();
    assert!(r.is_empty());
    r.push(1);
    assert!(!r.is_empty());
}

#[test]
fn last_n_zero_returns_empty() {
    let mut r: RingBuffer<u32, 4> = RingBuffer::new();
    r.push(1);
    assert!(r.last_n(0).is_empty());
}

#[test]
fn zero_capacity_ring_buffer() {
    let mut r: RingBuffer<u32, 0> = RingBuffer::new();
    r.push(1); // should not panic
    assert_eq!(r.len(), 0);
    assert!(r.is_empty());
}

#[test]
fn ring_keeps_newest_values() {
    let mut r: RingBuffer<u32, 3> = RingBuffer::default();
    for i in 0..7 {
        r.push(i);
        let expected: Vec<u32> = (i.saturating_sub(2)..=i).collect();
        assert_eq!(items(&r), expected);
        assert_eq!(*r.last_n(1)[0], i);
    }
}

// ---- protocol ----

#[test]
fn parse_ethdev_list_basic() {
    let json = r#"{"/ethdev/list": [0, 1, 2]}"#;
    let ids = parse_ethdev_list(json).unwrap();
    assert_eq!(ids, vec![0, 1, 2]);
}

#[test]
fn parse_ethdev_list_empty() {
    let json = r#"{"/ethdev/list": []}"#;
    let ids = parse_ethdev_list(json).unwrap();
    assert!(ids.is_empty());
}

#[test]
fn parse_ethdev_list_skips_non_numbers_and_truncates() {
    let json = r#"{"/ethdev/list": [1, "x", -3, 2.5, 65537, null]}"#;
    assert_eq!(parse_ethdev_list(json).unwrap(), vec![1, 1]);
    let other = r#"{"/ethdev/ports": [1]}"#;
    assert!(parse_ethdev_list(other).unwrap().is_empty());
    let not_array = r#"{"/ethdev/list": 3}"#;
    assert!(parse_ethdev_list(not_array).unwrap().is_empty());
}

fn stats_response(key: &str, stats: PortStats) -> Vec<(String, PortStats)> {
    vec![(key.to_string(), stats)]
}

#[test]
fn parse_ethdev_stats_basic() {
    // {"/ethdev/stats,0": {"ipackets": 12345, "opackets": 6789, "ibytes": 1234500,
    //  "obytes": 678900, "imissed": 0, "ierrors": 0, "oerrors": 0, "rx_nombuf": 0}}
    let resp = stats_response(
        "/ethdev/stats,0",
        PortStats { ipackets: 12345, opackets: 6789, ibytes: 1234500, obytes: 678900, imissed: 0, ierrors: 0, oerrors: 0, rx_nombuf: 0 },
    );
    let stats = parse_ethdev_stats(&resp, 0).unwrap();
    assert_eq!(stats.ipackets, 12345);
    assert_eq!(stats.opackets, 6789);
    assert_eq!(stats.ibytes, 1234500);
}

#[test]
fn parse_ethdev_stats_missing_fields_default_to_zero() {
    // {"/ethdev/stats,0": {"ipackets": 100}}: absent counters read as 0
    let resp = stats_response("/ethdev/stats,0", PortStats { ipackets: 100, ..Default::default() });
    let stats = parse_ethdev_stats(&resp, 0).unwrap();
    assert_eq!(stats.ipackets, 100);
    assert_eq!(stats.opackets, 0);
    assert_eq!(stats.ibytes, 0);
}

#[test]
fn parse_ethdev_stats_large_counters() {
    let resp = stats_response(
        "/ethdev/stats,0",
        PortStats { ipackets: 18446744073709551000, ibytes: 18446744073709551000, ..Default::default() },
    );
    let stats = parse_ethdev_stats(&resp, 0).unwrap();
    assert!(stats.ipackets > 1_000_000_000_000);
}

#[test]
fn parse_ethdev_stats_key_selection() {
    let s1 = PortStats { ipackets: 1, ..Default::default() };
    let s2 = PortStats { ipackets: 2, ..Default::default() };
    let resp = vec![("/ethdev/stats".to_string(), s1), ("/ethdev/stats,12".to_string(), s2)];
    assert_eq!(parse_ethdev_stats(&resp, 12).unwrap().ipackets, 2);
    assert_eq!(parse_ethdev_stats(&resp, 3).unwrap().ipackets, 1);
    let resp = vec![("/ethdev/stats,1".to_string(), s1)];
    assert_eq!(parse_ethdev_stats(&resp, 2), Err(ProtocolError::EthdevStatsKeyNotFound));
}

fn info_response(raw: EthdevInfoRaw) -> Vec<(String, EthdevInfoRaw)> {
    vec![("/ethdev/info,0".to_string(), raw)]
}

#[test]
fn parse_ethdev_info_link_up() {
    let resp = info_response(EthdevInfoRaw {
        device_name: Some("0000:00:06.0".to_string()),
        driver_name: Some("net_ena".to_string()),
        mac_addr: Some("0E:06:DC:99:DC:0B".to_string()),
        mtu: Some(1500),
        link_speed: Some(10000),
        link_status: Some("up".to_string()),
        nb_rx_queues: Some(4),
        nb_tx_queues: Some(4),
        ..Default::default()
    });
    let info = parse_ethdev_info(&resp, 0).unwrap();
    assert_eq!(info.name, "0000:00:06.0");
    assert_eq!(info.driver, "net_ena");
    assert_eq!(info.nb_rx_queues, 4);
    assert_eq!(info.link_status, LinkStatus::Up);
}

#[test]
fn parse_ethdev_info_dev_started_as_proxy() {
    let resp = info_response(EthdevInfoRaw {
        device_name: Some("test_port".to_string()),
        dev_started: Some(1),
        ..Default::default()
    });
    let info = parse_ethdev_info(&resp, 0).unwrap();
    assert_eq!(info.link_status, LinkStatus::Up);
}

#[test]
fn parse_ethdev_info_missing_fields() {
    let resp = info_response(EthdevInfoRaw::default());
    let info = parse_ethdev_info(&resp, 0).unwrap();
    assert_eq!(info.link_status, LinkStatus::Unknown);
    assert_eq!(info.nb_rx_queues, 0);
    assert_eq!(info.mtu, 0);
}

#[test]
fn parse_ethdev_info_link_down() {
    let resp = info_response(EthdevInfoRaw {
        device_name: Some("0000:00:07.0".to_string()),
        link_status: Some("down".to_string()),
        nb_rx_queues: Some(2),
        nb_tx_queues: Some(2),
        ..Default::default()
    });
    let info = parse_ethdev_info(&resp, 0).unwrap();
    assert_eq!(info.link_status, LinkStatus::Down);
    assert_eq!(info.nb_rx_queues, 2);
}

#[test]
fn parse_ethdev_info_defaults_and_fallback_key() {
    let resp = vec![("/ethdev/info".to_string(), EthdevInfoRaw { dev_started: Some(0), ..Default::default() })];
    let info = parse_ethdev_info(&resp, 42).unwrap();
    assert_eq!(info.pci, "port_42");
    assert_eq!(info.name, "");
    assert_eq!(info.link_status, LinkStatus::Unknown);
    let resp = vec![("/ethdev/info,1".to_string(), EthdevInfoRaw::default())];
    assert_eq!(parse_ethdev_info(&resp, 0).unwrap_err(), ProtocolError::EthdevInfoKeyNotFound);
}

#[test]
fn parse_xstats_array_format() {
    let json = r#"{"/ethdev/xstats,0": [
        {"name": "rx_good_packets", "value": 12345},
        {"name": "rx_q0_packets", "value": 5000},
        {"name": "tx_good_packets", "value": 100}
    ]}"#;
    let xstats = parse_ethdev_xstats(json).unwrap();
    assert_eq!(xstats.len(), 3);
    assert!(xstats.iter().any(|(n, v)| n == "rx_good_packets" && *v == 12345));
    assert!(xstats.iter().any(|(n, v)| n == "rx_q0_packets" && *v == 5000));
}

#[test]
fn parse_xstats_dict_format() {
    let json = r#"{"/ethdev/xstats,0": {
        "rx_good_packets": 12345,
        "rx_q0_packets": 5000,
        "tx_good_packets": 100
    }}"#;
    let xstats = parse_ethdev_xstats(json).unwrap();
    assert_eq!(xstats.len(), 3);
    assert!(xstats.iter().any(|(n, v)| n == "rx_good_packets" && *v == 12345));
}

#[test]
fn parse_xstats_non_array_non_dict_returns_empty() {
    let json = r#"{"/ethdev/xstats,0": "unexpected_string"}"#;
    let xstats = parse_ethdev_xstats(json).unwrap();
    assert!(xstats.is_empty());
}

#[test]
fn parse_xstats_skips_malformed_and_needs_key() {
    let json = r#"{"/ethdev/xstats,0": [
        {"name": "a", "value": 1}, {"name": 3, "value": 1}, {"value": 2}, 7, {"name": "b", "value": -1}
    ]}"#;
    assert_eq!(parse_ethdev_xstats(json).unwrap(), vec![("a".to_string(), 1)]);
    let json = r#"{"/ethdev/stats,0": {}}"#;
    assert_eq!(parse_ethdev_xstats(json), Err(ProtocolError::XstatsKeyNotFound));
}

#[test]
fn parse_mempool_list_basic() {
    let json = r#"{"/mempool/list": ["mb_pool_0", "mb_pool_1"]}"#;
    let names = parse_mempool_list(json).unwrap();
    assert_eq!(names, vec!["mb_pool_0", "mb_pool_1"]);
}

#[test]
fn parse_ethdev_list_leading_space_key() {
    let json = r#"{ " /ethdev/list": [0, 3, 5]}"#;
    let ids = parse_ethdev_list(json).unwrap();
    assert_eq!(ids, vec![0, 3, 5]);
}

#[test]
fn parse_mempool_list_leading_space_key() {
    let json = r#"{ " /mempool/list": ["pool_a"]}"#;
    let names = parse_mempool_list(json).unwrap();
    assert_eq!(names, vec!["pool_a"]);
}

fn mempool_response(key: &str, raw: MempoolInfoRaw) -> Vec<(String, MempoolInfoRaw)> {
    vec![(key.to_string(), raw)]
}

#[test]
fn parse_mempool_info_with_size_and_free() {
    let resp = mempool_response(
        "/mempool/info,mb_pool_0",
        MempoolInfoRaw { size: Some(16384), free_count: Some(12000), cache_size: Some(256), elt_size: Some(2176), ..Default::default() },
    );
    let info = parse_mempool_info(&resp, "mb_pool_0").unwrap();
    assert_eq!(info.size, 16384);
    assert_eq!(info.free_count, 12000);
    assert_eq!(info.element_size, 2176);
}

#[test]
fn parse_mempool_info_with_count_and_common_pool() {
    let resp = mempool_response(
        "/mempool/info,mb_pool_0",
        MempoolInfoRaw {
            count: Some(16384),
            common_pool_count: Some(10000),
            total_cache_count: Some(2000),
            cache_size: Some(256),
            element_size: Some(2176),
            ..Default::default()
        },
    );
    let info = parse_mempool_info(&resp, "mb_pool_0").unwrap();
    assert_eq!(info.size, 16384);
    assert_eq!(info.free_count, 12000); // 10000 + 2000
}

#[test]
fn parse_mempool_info_populated_size_fallback() {
    let resp = mempool_response(
        "/mempool/info,pool_x",
        MempoolInfoRaw { populated_size: Some(8192), free_count: Some(4096), elt_size: Some(2048), ..Default::default() },
    );
    let info = parse_mempool_info(&resp, "pool_x").unwrap();
    assert_eq!(info.size, 8192);
    assert_eq!(info.free_count, 4096);
    assert_eq!(info.element_size, 2048);
}

#[test]
fn parse_mempool_info_no_free_count_uses_pool_counts() {
    let resp = mempool_response(
        "/mempool/info,p",
        MempoolInfoRaw { size: Some(1024), common_pool_count: Some(500), total_cache_count: Some(100), ..Default::default() },
    );
    let info = parse_mempool_info(&resp, "p").unwrap();
    assert_eq!(info.size, 1024);
    assert_eq!(info.free_count, 600); // 500 + 100
}

#[test]
fn parse_mempool_info_key_not_found_and_fallback() {
    let resp = mempool_response("/mempool/info,a", MempoolInfoRaw::default());
    assert_eq!(parse_mempool_info(&resp, "b").unwrap_err(), ProtocolError::MempoolInfoKeyNotFound);
    let resp = mempool_response("/mempool/info", MempoolInfoRaw { size: Some(5), ..Default::default() });
    let info = parse_mempool_info(&resp, "b").unwrap();
    assert_eq!((info.name.as_str(), info.size, info.free_count), ("b", 5, 0));
    assert_eq!(ProtocolError::MempoolInfoKeyNotFound.message(), "mempool info key not found");
}

// ---- mempool ----

#[test]
fn mempool_state_from_info() {
    let info = MempoolInfo {
        name: "test_pool".to_string(),
        size: 1000,
        free_count: 400,
        cache_size: 32,
        element_size: 2176,
        flags: 0,
    };
    let state = MempoolState::from_info(&info);
    assert_eq!(state.in_use, 600);
    assert_eq!(state.free_count, 400);
    assert_eq!((state.size, state.cache_size, state.element_size), (1000, 32, 2176));
}

#[test]
fn mempool_state_full() {
    let info = MempoolInfo { name: "full_pool".to_string(), size: 16384, free_count: 0, ..Default::default() };
    let state = MempoolState::from_info(&info);
    assert_eq!(state.in_use, 16384);
}

#[test]
fn mempool_state_empty() {
    let info = MempoolInfo { name: "empty_pool".to_string(), size: 16384, free_count: 16384, ..Default::default() };
    let state = MempoolState::from_info(&info);
    assert_eq!(state.in_use, 0);
}

#[test]
fn mempool_state_zero_size() {
    let info = MempoolInfo { name: "zero".to_string(), size: 0, free_count: 0, ..Default::default() };
    let state = MempoolState::from_info(&info);
    assert_eq!(state.in_use, 0);
    assert_eq!(state.name, "zero");
}

#[test]
fn mempool_state_more_free_than_size() {
    let info = MempoolInfo { name: "odd".to_string(), size: 10, free_count: 12, ..Default::default() };
    assert_eq!(MempoolState::from_info(&info).in_use, 0);
}

// ---- format ----

#[test]
fn format_int_thousands_separator() {
    assert_eq!(format_int(0), "0");
    assert_eq!(format_int(5), "5");
    assert_eq!(format_int(42), "42");
    assert_eq!(format_int(999), "999");
    assert_eq!(format_int(1_000), "1,000");
    assert_eq!(format_int(1_234), "1,234");
    assert_eq!(format_int(16_384), "16,384");
    assert_eq!(format_int(100_000), "100,000");
    assert_eq!(format_int(1_234_567), "1,234,567");
    assert_eq!(format_int(1_234_567_890), "1,234,567,890");
}

#[test]
fn format_int_max_and_digits_preserved() {
    assert_eq!(format_int(u64::MAX), "18,446,744,073,709,551,615");
    for n in [7u64, 12, 345, 6789, 10_000_001, 999_999_999] {
        assert_eq!(format_int(n).replace(',', ""), n.to_string());
    }
}

// ---- alerts ----

#[test]
fn port_alerts_healthy_port_raises_none() {
    assert!(port_alert_kinds(false, false, true).is_empty());
}

#[test]
fn port_alerts_each_problem() {
    let a = port_alert_kinds(true, false, true);
    assert_eq!(a, vec![AlertKind::RxMissedRising]);
    assert_eq!(a[0].severity(), AlertSeverity::Warning);
    assert_eq!(a[0].name(), "rx_missed_rising");
    let a = port_alert_kinds(false, true, true);
    assert_eq!(a, vec![AlertKind::RxNombufRising]);
    assert_eq!(a[0].severity(), AlertSeverity::Critical);
    assert_eq!(a[0].name(), "rx_nombuf_rising");
    let a = port_alert_kinds(false, false, false);
    assert_eq!(a, vec![AlertKind::LinkDown]);
    assert_eq!(a[0].severity(), AlertSeverity::Critical);
    assert_eq!(a[0].name(), "link_down");
}

#[test]
fn port_alerts_multiple_in_order() {
    assert_eq!(
        port_alert_kinds(true, true, false),
        vec![AlertKind::RxMissedRising, AlertKind::RxNombufRising, AlertKind::LinkDown]
    );
    assert_eq!(link_down_message(2), "Port 2 link down");
}

#[test]
fn mempool_alert_levels() {
    assert_eq!(mempool_alert_kind(false, false), None);
    assert_eq!(mempool_alert_kind(false, true), Some(AlertKind::MempoolHigh));
    assert_eq!(mempool_alert_kind(true, true), Some(AlertKind::MempoolCritical));
    assert_eq!(AlertKind::MempoolHigh.severity(), AlertSeverity::Warning);
    assert_eq!(AlertKind::MempoolCritical.severity(), AlertSeverity::Critical);
    assert_eq!(AlertKind::MempoolCritical.name(), "mempool_critical");
    assert_eq!(AlertKind::MempoolHigh.name(), "mempool_high");
}

// ---- discovery ----

#[test]
fn telemetry_socket_names() {
    assert!(has_telemetry_name("dpdk_telemetry.v2"));
    assert!(has_telemetry_name("dpdk_telemetry.v2.1234"));
    assert!(!has_telemetry_name("dpdk_telemetry.v1"));
    assert!(!has_telemetry_name("rte_mp_socket"));
    assert!(!has_telemetry_name(""));
}

// ---- poller decisions ----

#[test]
fn discovery_plan_adds_and_drops_ports() {
    let plan = plan_port_discovery(&vec![0, 1, 2], &vec![2, 3, 0, 3]);
    assert_eq!(plan, vec![PortSlot::Existing(0), PortSlot::Existing(2), PortSlot::New(3)]);
    assert!(plan_port_discovery(&vec![4], &vec![]).is_empty());
    assert_eq!(plan_port_discovery(&vec![], &vec![1, 1]), vec![PortSlot::New(1)]);
}

#[test]
fn baseline_and_queue_count() {
    assert!(needs_baseline(&PortStats::default()));
    assert!(!needs_baseline(&PortStats { ibytes: 1, ..Default::default() }));
    let mut info = PortInfo::default();
    assert_eq!(queue_count(&info), 1);
    info.nb_rx_queues = 2;
    info.nb_tx_queues = 4;
    assert_eq!(queue_count(&info), 4);
}

// ---- dashboard ----

fn state() -> TuiState {
    TuiState::new()
}

#[test]
fn keys_switch_screens() {
    let (s, a) = handle_key(state(), Key::Char('m'), 1);
    assert_eq!((s.view, a), (Screen::Mempools, TuiAction::Nothing));
    let (s, _) = handle_key(s, Key::Tab, 1);
    assert_eq!(s.view, Screen::Xstats);
    let (s, _) = handle_key(s, Key::Tab, 1);
    assert_eq!(s.view, Screen::Dashboard);
    let (s, _) = handle_key(s, Key::BackTab, 1);
    assert_eq!(s.view, Screen::Xstats);
    let mut v = Screen::Graphs;
    for _ in 0..5 {
        v = next_screen(v);
    }
    assert_eq!(v, Screen::Graphs);
    assert_eq!(prev_screen(next_screen(Screen::Port)), Screen::Port);
}

#[test]
fn keys_scroll_quit_help_and_move() {
    let (s, _) = handle_key(state(), Key::Char('x'), 1);
    let (s, _) = handle_key(s, Key::PageDown, 1);
    assert_eq!(s.xstats_scroll, 20);
    let (s, _) = handle_key(s, Key::Up, 1);
    assert_eq!(s.xstats_scroll, 19);
    let (s, _) = handle_key(s, Key::PageUp, 1);
    assert_eq!(s.xstats_scroll, 0);
    let (s, a) = handle_key(s, Key::Char('?'), 1);
    assert!(s.show_help);
    assert_eq!(a, TuiAction::Nothing);
    let (s, a) = handle_key(s, Key::Char('q'), 1);
    assert!(!s.show_help);
    assert_eq!(a, TuiAction::Nothing);
    let (_, a) = handle_key(s, Key::Esc, 1);
    assert_eq!(a, TuiAction::Quit);
    let (_, a) = handle_key(state(), Key::Char('j'), 1);
    assert_eq!(a, TuiAction::MovePort(1));
    let (_, a) = handle_key(state(), Key::Up, 1);
    assert_eq!(a, TuiAction::MovePort(-1));
}

#[test]
fn keys_switch_instances() {
    let (s, _) = handle_key(state(), Key::Char(']'), 3);
    assert_eq!(s.instance_idx, 1);
    let (s, _) = handle_key(s, Key::Char('3'), 3);
    assert_eq!(s.instance_idx, 2);
    let (s, _) = handle_key(s, Key::Char(']'), 3);
    assert_eq!(s.instance_idx, 2);
    let (s, _) = handle_key(s, Key::Char('9'), 3);
    assert_eq!(s.instance_idx, 2);
    let (s, _) = handle_key(s, Key::Char('['), 3);
    assert_eq!(s.instance_idx, 1);
    let (s, _) = handle_key(s, Key::Char('0'), 3);
    assert_eq!(s.instance_idx, 1);
}

#[test]
fn port_selection_moves_and_stops_at_ends() {
    let ids = vec![3u16, 5, 9];
    assert_eq!(move_port_selection(&ids, 5, 1), Some(9));
    assert_eq!(move_port_selection(&ids, 9, 1), Some(9));
    assert_eq!(move_port_selection(&ids, 5, -1), Some(3));
    assert_eq!(move_port_selection(&ids, 3, -1), Some(3));
    assert_eq!(move_port_selection(&ids, 7, 1), Some(5));
    assert_eq!(move_port_selection(&vec![], 7, 1), None);
}

#[test]
fn layout_sizes() {
    let h = dashboard_heights(2, 4, 40, 0);
    assert_eq!((h.ports, h.queues, h.mempools), (6, 7, 3));
    let h = dashboard_heights(10, 30, 40, 5);
    assert_eq!((h.ports, h.queues, h.mempools), (13, 12, 7));
    let r = help_area(UiRect { x: 0, y: 0, width: 100, height: 30 });
    assert_eq!(r, UiRect { x: 22, y: 3, width: 56, height: 24 });
    let r = help_area(UiRect { x: 5, y: 2, width: 40, height: 10 });
    assert_eq!(r, UiRect { x: 5, y: 2, width: 40, height: 10 });
}

#[test]
fn labels() {
    assert_eq!(link_label(LinkStatus::Up, 10000, "--"), "10G UP");
    assert_eq!(link_label(LinkStatus::Up, 0, "--"), "UP");
    assert_eq!(link_label(LinkStatus::Down, 100, "--"), "DOWN");
    assert_eq!(link_label(LinkStatus::Unknown, 100, "--"), "--");
    assert_eq!(instance_label(1, 3), "  [2/3]  ");
    assert_eq!(instance_label(0, 1), "");
    assert_eq!(pci_column("0000:00:06.0"), "0000:00:06.0    ");
    assert_eq!(pci_column("abcdefghijklmnopqrs"), "abcdefghijklmnop");
    let info = PortInfo { pci: "p0".to_string(), mtu: 1500, nb_rx_queues: 2, ..Default::default() };
    let lines = port_info_lines(&info);
    assert_eq!(lines[0], "  Name:       p0");
    assert_eq!(lines[1], "  Driver:     \u{2014}");
    assert_eq!(lines[3], "  MTU:        1500");
    assert_eq!(lines[4], "  Link:       Unknown");
    assert_eq!(lines[5], "  RX Queues:  2");
}

#[test]
fn sparkline_cells() {
    assert_eq!(column_glyph(0, 0), None);
    assert_eq!(column_glyph(3, 0), Some('\u{2583}'));
    assert_eq!(column_glyph(19, 0), Some('\u{2588}'));
    assert_eq!(column_glyph(19, 1), Some('\u{2588}'));
    assert_eq!(column_glyph(19, 2), Some('\u{2583}'));
    assert_eq!(column_glyph(19, 3), None);
    assert_eq!(column_glyph(16, 2), None);
    assert_eq!(sparkline_label_width(3, 20), 4);
    assert_eq!(sparkline_label_width(3, 7), 0);
}

#[test]
fn footer_tabs_follow_tab_order_and_mark_current() {
    let tabs = footer_tabs(Screen::Graphs);
    let texts: Vec<&str> = tabs.iter().map(|t| t.text.as_str()).collect();
    assert_eq!(texts, vec![" [d]dashboard ", " [p]port ", " [g]graphs ", " [m]mempools ", " [x]xstats "]);
    let active: Vec<bool> = tabs.iter().map(|t| t.active).collect();
    assert_eq!(active, vec![false, false, true, false, false]);
}

fn ev(shutdown: bool, now_ns: u64, ok: bool) -> PollerEvent {
    PollerEvent { shutdown, now_ns, ok }
}

#[test]
fn poller_connects_discovers_then_polls_when_due() {
    let s = PollerState::new(0, 1_000_000_000);
    let (s, a) = poller_step(s, ev(false, 0, true));
    assert_eq!(a, PollerAction::Connect);
    let (s, a) = poller_step(s, ev(false, 0, true));
    assert_eq!(a, PollerAction::ConnectedDiscover);
    // Discovery done at 0.5 s: the poll interval has not passed yet.
    let (s, a) = poller_step(s, ev(false, 500_000_000, true));
    assert_eq!(a, PollerAction::Pause { ms: 100 });
    assert_eq!(s.last_discovery_ns, 500_000_000);
    // At 1.2 s the poll is due, 1.2 s after the start.
    let (s, a) = poller_step(s, ev(false, 1_200_000_000, true));
    assert_eq!(a, PollerAction::Poll { elapsed_ns: 1_200_000_000 });
    assert_eq!(s.phase, PollerPhase::AwaitPoll);
    assert_eq!(s.last_poll_ns, 1_200_000_000);
    let (s, a) = poller_step(s, ev(false, 1_210_000_000, true));
    assert_eq!(a, PollerAction::RecordPollThenPause { at_ns: 1_200_000_000, ms: 100 });
    // Ten seconds after the last discovery the ports are rediscovered.
    let (s, a) = poller_step(s, ev(false, 10_500_000_000, true));
    assert_eq!(a, PollerAction::Discover);
    let (_, a) = poller_step(s, ev(false, 10_600_000_000, true));
    assert_eq!(a, PollerAction::Poll { elapsed_ns: 9_400_000_000 });
}

#[test]
fn poller_retries_failed_connect_and_stops_on_request() {
    let s = PollerState::new(0, 1_000_000_000);
    let (s, _) = poller_step(s, ev(false, 0, true));
    let (s, a) = poller_step(s, ev(false, 0, false));
    assert_eq!(a, PollerAction::DisconnectedPause { ms: 2000 });
    assert_eq!(s.phase, PollerPhase::AwaitReconnectPause);
    let (s, a) = poller_step(s, ev(true, 0, true));
    assert_eq!(a, PollerAction::Finish { failed: false });
    assert_eq!(s.phase, PollerPhase::Done);
    let (s2, a) = poller_step(s, ev(false, 5, true));
    assert_eq!(a, PollerAction::Finish { failed: false });
    assert_eq!(s2, s);
}

#[test]
fn poller_stops_after_failed_discovery_and_reconnects_after_failed_poll() {
    let s = PollerState::new(0, 1_000);
    let (s, _) = poller_step(s, ev(false, 0, true));
    let (s, _) = poller_step(s, ev(false, 0, true));
    let (_, a) = poller_step(s, ev(false, 10, false));
    assert_eq!(a, PollerAction::Finish { failed: true });
    let (s, a) = poller_step(s, ev(false, 2_000, true));
    assert_eq!(a, PollerAction::Poll { elapsed_ns: 2_000 });
    let (s, a) = poller_step(s, ev(false, 2_100, false));
    assert_eq!(a, PollerAction::Pause { ms: 2000 });
    let (_, a) = poller_step(s, ev(false, 4_100, true));
    assert_eq!(a, PollerAction::Connect);
}

#[test]
fn sort_by_name_orders_names_and_keeps_equal_names_in_order() {
    let xs = vec![
        ("tx_good_packets".to_string(), 5u64),
        ("rx_q0_bytes".to_string(), 1),
        ("rx_good_packets".to_string(), 7),
        ("rx_q0_bytes".to_string(), 2),
        ("Rx_upper".to_string(), 3),
    ];
    let out = sort_by_name(&xs);
    let expected = vec![
        ("Rx_upper".to_string(), 3u64),
        ("rx_good_packets".to_string(), 7),
        ("rx_q0_bytes".to_string(), 1),
        ("rx_q0_bytes".to_string(), 2),
        ("tx_good_packets".to_string(), 5),
    ];
    assert_eq!(out, expected);
    assert!(sort_by_name(&Vec::new()).is_empty());
}

#[test]
fn xstat_line_pads_name_and_groups_value() {
    let line = xstat_line("rx_good_packets", 1234567);
    let expected = format!("  {:<44} {:>18}", "rx_good_packets", "1,234,567");
    assert_eq!(line, expected);
    assert_eq!(line.len(), 2 + 44 + 1 + 18);
}

const SAMPLE_PATHS: [&str; 16] = [
    "", "/", "//", ".", "./", "./a", "a", "a/", "a/./b", "a//b", "a/b", "a-c", "../x", "/a/b", "/a-c", "/a/..",
];

#[test]
fn path_order_and_equality_match_std_path() {
    for a in SAMPLE_PATHS.iter() {
        for b in SAMPLE_PATHS.iter() {
            let (ab, bb) = (a.as_bytes().to_vec(), b.as_bytes().to_vec());
            let (pa, pb) = (std::path::Path::new(a), std::path::Path::new(b));
            assert_eq!(path_less(&ab, &bb), pa < pb, "{:?} < {:?}", a, b);
            assert_eq!(paths_equal(&ab, &bb), pa == pb, "{:?} == {:?}", a, b);
        }
    }
}

#[test]
fn components_of_splits_like_std() {
    let c = components_of(&b"/var//run/./dpdk/".to_vec());
    assert_eq!(
        c,
        vec![(ROOT_DIR, vec![]), (NORMAL, b"var".to_vec()), (NORMAL, b"run".to_vec()), (NORMAL, b"dpdk".to_vec())]
    );
    assert_eq!(components_of(&Vec::new()), vec![]);
}

#[test]
fn order_sockets_keeps_first_per_socket_and_sorts_as_paths() {
    let sock = "/run/dpdk/rte/dpdk_telemetry.v2";
    let found: Vec<(Vec<u8>, Vec<u8>)> = vec![
        ("/var/run/dpdk/rte/dpdk_telemetry.v2", sock),
        ("/run/dpdk/rte/dpdk_telemetry.v2", sock),
        ("/run/dpdk/a-c/dpdk_telemetry.v2", "/run/dpdk/a-c/dpdk_telemetry.v2"),
        ("/run/dpdk/a/b/dpdk_telemetry.v2", "/run/dpdk/a/b//dpdk_telemetry.v2"),
    ]
    .into_iter()
    .map(|(p, c)| (p.as_bytes().to_vec(), c.as_bytes().to_vec()))
    .collect();
    let kept = dedup_by_canonical(&found);
    assert_eq!(kept.len(), 3);
    assert_eq!(kept[0], b"/var/run/dpdk/rte/dpdk_telemetry.v2".to_vec());
    let out: Vec<String> = order_sockets(&found).into_iter().map(|b| String::from_utf8(b).unwrap()).collect();
    assert_eq!(
        out,
        vec![
            "/run/dpdk/a/b/dpdk_telemetry.v2".to_string(),
            "/run/dpdk/a-c/dpdk_telemetry.v2".to_string(),
            "/var/run/dpdk/rte/dpdk_telemetry.v2".to_string(),
        ]
    );
    let mut by_std: Vec<std::path::PathBuf> = out.iter().map(std::path::PathBuf::from).collect();
    by_std.sort();
    let by_std: Vec<String> = by_std.into_iter().map(|p| p.to_string_lossy().into_owned()).collect();
    assert_eq!(out, by_std);
}

#[test]
fn sort_paths_keeps_equal_paths_in_order() {
    let paths: Vec<Vec<u8>> = vec![b"/b".to_vec(), b"/a//".to_vec(), b"/a".to_vec()];
    assert_eq!(sort_paths(&paths), vec![b"/a//".to_vec(), b"/a".to_vec(), b"/b".to_vec()]);
    assert!(contains_path(&paths, &b"/a/".to_vec()));
    assert!(!contains_path(&paths, &b"/c".to_vec()));
}

#[test]
fn parse_ethdev_list_malformed_returns_error() {
    let result = parse_ethdev_list("not json at all");
    assert!(result.is_err());
}

#[test]
fn list_and_xstats_parsers_report_malformed_text() {
    assert_eq!(parse_ethdev_list("[0, 1]"), Err(ProtocolError::EthdevListParse));
    assert_eq!(parse_mempool_list("{"), Err(ProtocolError::MempoolListParse));
    assert_eq!(parse_ethdev_xstats("not json"), Err(ProtocolError::XstatsParse));
    assert_eq!(ProtocolError::EthdevListParse.message(), "Parse /ethdev/list");
    assert_eq!(ProtocolError::XstatsParse.message(), "Parse xstats");
}

#[test]
fn parse_response_gives_the_object_entries() {
    let mut entries = parse_response(r#"{"b": [1, "x", null], "a": {"k": true, "n": 2.5}}"#).unwrap();
    entries.sort_by(|x, y| x.0.cmp(&y.0));
    assert_eq!(entries.len(), 2);
    assert_eq!(entries[0].0, "a");
    match &entries[0].1 {
        JsonValue::Object(fields) => {
            assert_eq!(fields.len(), 2);
            assert_eq!(fields[0].0, "k");
            assert!(matches!(fields[0].1, JsonValue::Bool(true)));
            assert!(matches!(fields[1].1, JsonValue::Number(None)));
        }
        other => panic!("unexpected {:?}", other),
    }
    match &entries[1].1 {
        JsonValue::Array(items) => {
            assert!(matches!(items[0], JsonValue::Number(Some(1))));
            assert!(matches!(&items[1], JsonValue::Str(s) if s == "x"));
            assert!(matches!(items[2], JsonValue::Null));
        }
        other => panic!("unexpected {:?}", other),
    }
    assert!(parse_response("[1]").is_none());
    assert!(parse_response("").is_none());
}

#[test]
fn entry_parsers_read_given_entries_in_order() {
    let entries = vec![
        ("x /ethdev/list".to_string(), JsonValue::Array(vec![JsonValue::Number(Some(4))])),
        ("/ethdev/list ".to_string(), JsonValue::Array(vec![JsonValue::Number(Some(9))])),
    ];
    assert_eq!(ethdev_list_of(&entries), vec![4]);
    let names = vec![(" /mempool/list".to_string(), JsonValue::Array(vec![JsonValue::Str("p".to_string())]))];
    assert_eq!(mempool_list_of(&names), vec!["p".to_string()]);
    let xs = vec![("/ethdev/xstats".to_string(), JsonValue::Object(vec![("a".to_string(), JsonValue::Number(Some(7)))]))];
    assert_eq!(ethdev_xstats_of(&xs), Ok(vec![("a".to_string(), 7)]));
}

#[test]
fn compute_port_rates_counter_wrap() {
    let prev = PortStats { ipackets: u64::MAX - 99, ..Default::default() };
    let curr = PortStats { ipackets: 100, ..Default::default() };
    let d = port_stats_delta(&curr, &prev);
    assert_eq!(d.ipackets, 200);
}

#[test]
fn compute_queue_rates_ignores_oob_queue_ids() {
    let prev = vec![("rx_q99_packets".to_string(), 0u64)];
    let curr = vec![("rx_q99_packets".to_string(), 1000u64)];
    assert!(queue_counter_updates(&curr, &prev, 4).is_empty());
}

#[test]
fn compute_queue_rates_missing_previous_stat() {
    let prev: Vec<(String, u64)> = vec![];
    let curr = vec![("rx_q0_packets".to_string(), 500u64)];
    assert_eq!(
        queue_counter_updates(&curr, &prev, 2),
        vec![QueueCounterUpdate { queue: 0, field: QueueField::RxPackets, value: 500, delta: 500 }]
    );
}

#[test]
fn take_sample_seeds_baseline_then_advances() {
    let zero = PortStats::default();
    let first = PortStats { ipackets: 1000, ibytes: 64000, ..Default::default() };
    let step = take_sample(zero, zero, first);
    assert_eq!(step, SampleStep { current: first, previous: zero, delta: None });
    let second = PortStats { ipackets: 1500, ibytes: 96000, ..Default::default() };
    let step = take_sample(first, zero, second);
    assert_eq!(step.current, second);
    assert_eq!(step.previous, first);
    assert_eq!(step.delta, Some(PortStats { ipackets: 500, ibytes: 32000, ..Default::default() }));
}
