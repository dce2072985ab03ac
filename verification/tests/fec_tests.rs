//! Forward error correction.

use ipv8plus::fec::rx::FecRx;
use ipv8plus::fec::tx::FecTx;
use ipv8plus::fec::{
    data_counter, xor_into, FecError, DATA_MIN_FRAME, FEC_FRAME_TYPE, FRAME_HEADER_SIZE, RECOVERY_FIXED_BODY,
};

fn synth_data_frame(counter: u64, body_seed: u8, total_plain: usize) -> Vec<u8> {
    let mut f = vec![0x01u8, 0x02];
    f.extend_from_slice(&[0xABu8; 8]);
    f.resize(FRAME_HEADER_SIZE + total_plain, body_seed);
    f.extend_from_slice(&counter.to_be_bytes());
    f.extend_from_slice(&[0x77u8; 16]);
    f
}

#[test]
fn counter_extraction_roundtrip() {
    let f = synth_data_frame(0x0102_0304_0506_0708, 1, 40);
    assert_eq!(data_counter(&f).unwrap(), 0x0102_0304_0506_0708);

    let f2 = synth_data_frame(42, 9, 100);
    assert_eq!(data_counter(&f2).unwrap(), 42);
}

#[test]
fn counter_extraction_rejects_short() {
    assert!(matches!(
        data_counter(&[0u8; DATA_MIN_FRAME - 1]),
        Err(FecError::TooShort(_))
    ));
}

#[test]
fn xor_into_saturates_at_shorter_operand() {
    let mut acc = [1u8; 4];
    xor_into(&mut acc, &[0xff, 0xff]);
    assert_eq!(acc, [0xfe, 0xfe, 1, 1]);
}

#[test]
fn tx_rx_amortized_timing() {
    let n: usize = 200_000;
    let frames: Vec<Vec<u8>> =
        (0..4096usize).map(|i| synth_data_frame(i as u64, 1, 1200)).collect();

    let mut tx = FecTx::new(4).unwrap();
    let kid = [0u8; 8];
    for f in &frames[..64] {
        let _ = tx.push(f, kid);
    }
    let t0 = std::time::Instant::now();
    for i in 0..n {
        let _ = tx.push(&frames[i & 4095], kid);
    }
    let tx_ns = t0.elapsed().as_nanos() as f64 / n as f64;

    let t1 = std::time::Instant::now();
    let mut sink = 0u64;
    for i in 0..n {
        sink = sink.wrapping_add(data_counter(&frames[i & 4095]).unwrap_or(0));
    }
    let rx_ns = t1.elapsed().as_nanos() as f64 / n as f64;

    let mut rx = FecRx::new(4096);
    for f in &frames {
        let _ = rx.observe_data(f);
    }
    let t2 = std::time::Instant::now();
    for i in 0..n {
        let _ = rx.observe_data(&frames[i & 4095]);
    }
    let obs_ns = t2.elapsed().as_nanos() as f64 / n as f64;

    println!("[fec-timing] FecTx.push 摊销 = {tx_ns:.0} ns/帧（K=4，1200B）");
    println!("[fec-timing] FecRx 计数器提取摊销 = {rx_ns:.0} ns/帧");
    println!("[fec-timing] FecRx.observe_data 摊销 = {obs_ns:.0} ns/帧（含 1200B 缓存拷贝，参考）");
    let _ = sink;
}

fn key() -> [u8; 8] {
    [0xAA; 8]
}

#[test]
fn new_rejects_bad_k() {
    assert!(matches!(FecTx::new(1), Err(FecError::BadK(1))));
    assert!(matches!(FecTx::new(17), Err(FecError::BadK(17))));
    assert!(FecTx::new(2).is_ok());
    assert!(FecTx::new(16).is_ok());
}

#[test]
fn push_rejects_short_frame() {
    let mut tx = FecTx::new(2).unwrap();
    assert!(matches!(
        tx.push(&[0u8; DATA_MIN_FRAME - 1], key()),
        Err(FecError::TooShort(_))
    ));
}

#[test]
fn group_fills_at_exactly_k() {
    let mut tx = FecTx::new(4).unwrap();
    for i in 0..3u64 {
        let f = synth_data_frame(i, i as u8, 40);
        assert_eq!(tx.pending(), i as usize);
        assert!(tx.push(&f, key()).unwrap().is_none());
    }
    let f = synth_data_frame(3, 3, 40);
    let rec = tx.push(&f, key()).unwrap().expect("第 4 帧应产出恢复帧");
    assert_eq!(tx.pending(), 0, "产出后组应清空");

    assert_eq!(rec[0], 0x01);
    assert_eq!(rec[1], FEC_FRAME_TYPE);
    assert_eq!(&rec[2..10], &key());

    assert_eq!(&rec[10..18], &0u64.to_be_bytes());
    assert_eq!(rec[18], 4);
    assert_eq!(&rec[19..22], &[0, 0, 0]);

    assert_eq!(rec.len(), FRAME_HEADER_SIZE + RECOVERY_FIXED_BODY + 40 + 74);
}

#[test]
fn sliding_group_carries_over() {
    let mut tx = FecTx::new(2).unwrap();
    for i in 0..3u64 {
        let f = synth_data_frame(i, i as u8, 40);
        let out = tx.push(&f, key()).unwrap();
        assert_eq!(out.is_some(), i == 1);
    }
    assert_eq!(tx.pending(), 1);

    let f = synth_data_frame(3, 0, 40);
    let rec = tx.push(&f, key()).unwrap().unwrap();
    assert_eq!(u64::from_be_bytes([rec[10], rec[11], rec[12], rec[13], rec[14], rec[15], rec[16], rec[17]]), 1);
}

#[test]
fn recovery_carries_member_counters_and_xor() {
    let mut members = Vec::new();
    for i in 0..4u64 {
        members.push(synth_data_frame(
            0x1000 + i,
            (i as u8) * 0x11,
            40 + i as usize * 16,
        ));
    }
    let max_len = members.iter().map(|m| m.len()).max().unwrap();
    let mut tx = FecTx::new(4).unwrap();
    let mut rec = None;
    for m in &members {
        if let Some(r) = tx.push(m, key()).unwrap() {
            rec = Some(r);
        }
    }
    let rec = rec.unwrap();

    for (i, m) in members.iter().enumerate() {
        let off = 22 + i * 8;
        let c = u64::from_be_bytes(rec[off..off + 8].try_into().unwrap());
        assert_eq!(c, data_counter(m).unwrap(), "成员 {i} 计数器");
        let loff = 22 + 4 * 8 + i * 2;
        let l = u16::from_be_bytes(rec[loff..loff + 2].try_into().unwrap());
        assert_eq!(l as usize, m.len(), "成员 {i} 帧长");
    }

    let xor_start = 22 + 4 * 10;
    assert_eq!(rec.len() - xor_start, max_len);
    let mut expect = vec![0u8; max_len];
    for m in &members {
        for (b, mb) in expect.iter_mut().zip(m.iter()) {
            *b ^= mb;
        }
    }
    assert_eq!(&rec[xor_start..], &expect[..]);
}

fn make_group(k: usize, base_counter: u64) -> (Vec<Vec<u8>>, Vec<u8>) {
    let mut tx = FecTx::new(k).unwrap();
    let mut members = Vec::new();
    let mut rec = None;
    for i in 0..k as u64 {
        let f = synth_data_frame(base_counter + i, (i as u8) * 7 + 1, 40 + (i as usize % 3) * 8);
        members.push(f.clone());
        if let Some(r) = tx.push(&f, [0xAA; 8]).unwrap() {
            rec = Some(r);
        }
    }
    (members, rec.expect("组满必产出"))
}

#[test]
fn recovers_each_missing_position() {
    for drop_pos in 0..4usize {
        let (members, rec) = make_group(4, 900);
        let dropped = members[drop_pos].clone();
        let mut rx = FecRx::new(0);
        for (i, m) in members.iter().enumerate() {
            if i != drop_pos {
                rx.observe_data(m).unwrap();
            }
        }
        let recon = rx.accept_recovery(&rec)
            .expect("缺 1 必须成功重建")
            .expect("产出重建帧");
        assert_eq!(recon, dropped, "丢第 {drop_pos} 帧重建逐字节不一致");
        assert_eq!(rx.recovered, 1);
        assert_eq!(rx.abandoned, 0);
    }
}

#[test]
fn recovers_across_k_and_mixed_lengths() {
    for k in [2usize, 8, 16] {
        let mut tx = FecTx::new(k).unwrap();
        let mut members = Vec::new();
        let mut rec = None;
        for i in 0..k as u64 {
            let f = synth_data_frame(500 + i, i as u8 * 3, 40 + (i as usize % 2) * 64);
            members.push(f.clone());
            if let Some(r) = tx.push(&f, [0xBB; 8]).unwrap() {
                rec = Some(r);
            }
        }
        let rec = rec.unwrap();

        let mut rx = FecRx::new(0);
        for (i, m) in members.iter().enumerate() {
            if i != k - 1 {
                rx.observe_data(m).unwrap();
            }
        }
        let recon = rx.accept_recovery(&rec).unwrap().unwrap();
        assert_eq!(recon, members[k - 1], "K={k} 丢最长帧重建失败");

        let mut rx2 = FecRx::new(0);
        for (i, m) in members.iter().enumerate() {
            if i != 0 {
                rx2.observe_data(m).unwrap();
            }
        }
        let recon2 = rx2.accept_recovery(&rec).unwrap().unwrap();
        assert_eq!(recon2, members[0], "K={k} 丢最短帧重建失败");
    }
}

#[test]
fn group_members_only_marked_frames() {
    let mut tx = FecTx::new(4).unwrap();
    let mut rec = None;

    let mut fed = Vec::new();
    for i in 0..6u64 {
        let marked = i % 2 != 0 || i >= 4;
        if !marked {
            continue;
        }
        let f = synth_data_frame(700 + i, 1, 40);
        fed.push(700 + i);
        if let Some(r) = tx.push(&f, [0xCC; 8]).unwrap() {
            rec = Some(r);
        }
    }
    let rec = rec.expect("凑满 K=4 标记帧必产出");
    assert_eq!(fed, vec![701u64, 703, 704, 705]);

    for (i, c) in fed.iter().enumerate() {
        let off = 22 + i * 8;
        assert_eq!(u64::from_be_bytes(rec[off..off + 8].try_into().unwrap()), *c);
    }
}

#[test]
fn observe_rejects_short() {
    let mut rx = FecRx::new(0);
    assert!(matches!(
        rx.observe_data(&[0u8; DATA_MIN_FRAME - 1]),
        Err(FecError::TooShort(_))
    ));
}

#[test]
fn accept_rejects_malformed() {
    let mut rx = FecRx::new(0);

    assert!(matches!(
        rx.accept_recovery(&[0u8; 20]),
        Err(FecError::BodyTooShort { .. })
    ));

    let mut bad = vec![0x01, 0x02];
    bad.resize(22, 0);
    assert!(matches!(rx.accept_recovery(&bad), Err(FecError::SanityCheck)));
    let mut bad2 = vec![0x02, 0x06];
    bad2.resize(22, 0);
    assert!(matches!(rx.accept_recovery(&bad2), Err(FecError::SanityCheck)));

    let mut badk = vec![0x01, 0x06];
    badk.extend_from_slice(&[0xAA; 8]);
    badk.extend_from_slice(&[0u8; 8]);
    badk.push(0);
    badk.extend_from_slice(&[0, 0, 0]);
    assert_eq!(badk.len(), 22);
    assert!(matches!(rx.accept_recovery(&badk), Err(FecError::BadK(0))));
    badk[18] = 17;
    assert!(matches!(rx.accept_recovery(&badk), Err(FecError::BadK(17))));

    let mut trunc = vec![0x01, 0x06];
    trunc.extend_from_slice(&[0xAA; 8]);
    trunc.extend_from_slice(&[0u8; 8]);
    trunc.push(4);
    trunc.extend_from_slice(&[0, 0, 0]);
    trunc.extend_from_slice(&[0u8; 16]);
    assert!(matches!(
        rx.accept_recovery(&trunc),
        Err(FecError::BodyTooShort { .. })
    ));
}

#[test]
fn duplicate_group_dedup() {
    let (members, rec) = make_group(4, 100);
    let mut rx = FecRx::new(0);
    for m in &members {
        rx.observe_data(m).unwrap();
    }
    assert!(rx.accept_recovery(&rec).unwrap().is_none());
    assert!(rx.accept_recovery(&rec).unwrap().is_none());
    assert_eq!(rx.dup_recovery, 1);
}

#[test]
fn missing_two_abandons() {
    let (members, rec) = make_group(4, 200);
    let mut rx = FecRx::new(0);
    for (i, m) in members.iter().enumerate() {
        if i != 0 && i != 2 {
            rx.observe_data(m).unwrap();
        }
    }
    assert!(rx.accept_recovery(&rec).unwrap().is_none());
    assert_eq!(rx.abandoned, 1);

    let (m2, mut r2) = make_group(4, 300);
    for m in &m2 {
        rx.observe_data(m).unwrap();
    }
    rx.observe_data(&m2[1]).unwrap();
    r2[10..18].copy_from_slice(&5u64.to_be_bytes());
    assert!(rx.accept_recovery(&r2).unwrap().is_none());
    assert_eq!(rx.abandoned, 1, "后续组不受污染");
}

#[test]
fn cache_ring_evicts_oldest() {
    let mut rx = FecRx::new(4);
    for i in 0..6u64 {
        rx.observe_data(&synth_data_frame(i, 1, 40)).unwrap();
        assert!(rx.cached() <= 4);
    }

    let mut tx = FecTx::new(2).unwrap();
    let f4 = synth_data_frame(4, 9, 40);
    let f5 = synth_data_frame(5, 9, 40);
    let rec = tx.push(&f4, [0xAA; 8]).unwrap();
    assert!(rec.is_none());
    let rec = tx.push(&f5, [0xAA; 8]).unwrap().unwrap();
    assert!(rx.accept_recovery(&rec).unwrap().is_none(), "4/5 仍在缓存");
    let f0 = synth_data_frame(0, 9, 40);
    let f1 = synth_data_frame(1, 9, 40);
    let mut tx2 = FecTx::new(2).unwrap();
    tx2.push(&f0, [0xAA; 8]).unwrap();
    let mut rec01 = tx2.push(&f1, [0xAA; 8]).unwrap().unwrap();

    rec01[10..18].copy_from_slice(&77u64.to_be_bytes());
    assert!(rx.accept_recovery(&rec01).unwrap().is_none(), "0/1 已淘汰放弃");
    assert_eq!(rx.abandoned, 1);
}

#[test]
fn xor_len_mismatch_rejected() {
    let (members, mut rec) = make_group(2, 400);
    rec.pop();
    let mut rx = FecRx::new(0);
    for m in &members {
        rx.observe_data(m).unwrap();
    }
    rx.observe_data(&members[0]).unwrap();
    assert!(matches!(
        rx.accept_recovery(&rec),
        Err(FecError::XorLenMismatch { .. })
    ));
}
