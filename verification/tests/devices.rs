use linux_object::blockdev::{scan_partitions, BlkReply, BlockDev, PartitionBlock, BLKGETSIZE, BLKGETSIZE64};
use linux_object::device::{BlockScheme, DeviceError, RamBlock};
use linux_object::dsp::{
    drain_secs, DspDev, DspReply, DspView, WriteStep, AFMT_S16_LE, SNDCTL_DSP_GETFMTS,
    SNDCTL_DSP_RESET, SNDCTL_DSP_SPEED,
};
use linux_object::error::{convert_error, FsError, LxError, UserError, ZxError};
use linux_object::error::lx_from_zx;
use linux_object::fbdev::{
    ColorFormat, DisplayInfo, FbBitfield, FbDev, FbReply, FbVarScreeninfo, FbVisual,
    FBIOGET_FSCREENINFO, FBIOGET_VSCREENINFO,
};
use linux_object::input_event::{CapabilityType, EventDev, EventFuture, EventStep, InputEvent};
use linux_object::input_mice::{InputMiceInode, MiceDev, MouseState};
use linux_object::ioctl::{
    SerialIcounter, Termios, VtMode, TCGETS, TCSETS, TIOCGPGRP, TIOCGPTN, TIOCGWINSZ, TIOCSPGRP,
    TIOCSWINSZ, VT_AUTO,
};
use linux_object::mock::{mock_block, mocking_block, DiskMem, Entry, EntryType, OpCode, BLKSIZE};
use linux_object::pty::{
    ConsoleWinSize, PtmxINode, PtsDir, PtyArg, PtyMaster, PtyReply, PtySlave, PtyTable,
    PtyWaitStep, TtySignal, ICANON, ECHO, ISIG,
};
use linux_object::snd::{
    classify_pcm, fill_cstr, install, plan, write_chunk, CtlArg, CtlDev, PcmCall, PcmDev, PcmReply,
    PcmArg, PcmRequest, PcmView, SndInterval, SndMask, SndPcmHwParams, TransferStep, STATE_RUNNING, STATE_SETUP,
};
use linux_object::uartdev::{UartDev, UartStep};
use linux_object::vfs::{FileType, PollStatus};

fn terminal() -> (PtyTable, linux_object::pty::PtyInner, PtyMaster, PtySlave) {
    let mut table = PtyTable::new();
    let g = PtmxINode::new(1).open_master(&mut table, 50);
    (table, g, PtyMaster { inode_id: 2 }, PtySlave { inode_id: 50 })
}

#[test]
fn a_typed_line_is_handed_over_with_its_newline() {
    let (_t, mut g, master, slave) = terminal();
    let mut buf = [0u8; 16];
    assert_eq!(slave.read_at(&mut g, &mut buf), Err(FsError::Again));
    assert_eq!(master.write_at(&mut g, b"lx\x7fs").0, 4);
    assert_eq!(slave.read_at(&mut g, &mut buf), Err(FsError::Again));
    assert_eq!(master.write_at(&mut g, b"\r").0, 1);
    assert_eq!(slave.read_at(&mut g, &mut buf), Ok(3));
    assert_eq!(&buf[..3], b"ls\n");
    let n = master.read_at(&mut g, &mut buf).unwrap();
    assert_eq!(&buf[..n], b"lx\x08 \x08s\n");
}

#[test]
fn output_gains_a_carriage_return() {
    let (_t, mut g, master, slave) = terminal();
    assert_eq!(slave.write_at(&mut g, b"a\nb"), 3);
    let mut buf = [0u8; 8];
    assert_eq!(master.read_at(&mut g, &mut buf), Ok(4));
    assert_eq!(&buf[..4], b"a\r\nb");
}

#[test]
fn a_raw_terminal_passes_bytes_through() {
    let (_t, mut g, master, slave) = terminal();
    g.termios = Termios { c_iflag: 0, c_oflag: 0, c_lflag: 0, ..g.termios };
    assert!(g.termios.c_lflag & (ICANON | ECHO | ISIG) == 0);
    master.write_at(&mut g, b"\x03\r\x04");
    let mut buf = [0u8; 8];
    assert_eq!(slave.read_at(&mut g, &mut buf), Ok(3));
    assert_eq!(&buf[..3], b"\x03\r\x04");
    assert_eq!(master.read_at(&mut g, &mut buf), Err(FsError::Again));
}

#[test]
fn the_interrupt_key_signals_the_group_in_front() {
    let (_t, mut g, master, _slave) = terminal();
    g.fg_pgrp = 42;
    let (n, signals) = master.write_at(&mut g, b"\x03");
    assert_eq!(n, 1);
    assert_eq!(signals, vec![(42, TtySignal::Interrupt)]);
}

#[test]
fn settings_of_one_end_are_those_of_the_other() {
    let (_t, mut g, master, slave) = terminal();
    let size = ConsoleWinSize { ws_row: 10, ws_col: 20, ws_xpixel: 0, ws_ypixel: 0 };
    let arg = PtyArg { termios: g.termios, winsize: size, value: 77 };
    assert!(matches!(slave.io_control(&mut g, TIOCSWINSZ as u32, Some(arg), 5), Ok(PtyReply::Done)));
    assert!(matches!(master.io_control(&mut g, TIOCGWINSZ as u32, Some(arg), 5), Ok(PtyReply::Size(s)) if s == size));
    assert!(matches!(slave.io_control(&mut g, TIOCGPGRP as u32, Some(arg), 5), Ok(PtyReply::Group(5))));
    assert!(matches!(slave.io_control(&mut g, TIOCSPGRP as u32, Some(arg), 5), Ok(PtyReply::Done)));
    assert!(matches!(slave.io_control(&mut g, TIOCGPGRP as u32, Some(arg), 5), Ok(PtyReply::Group(77))));
    assert!(matches!(master.io_control(&mut g, TIOCGPTN as u32, Some(arg), 5), Ok(PtyReply::Number(0))));
    assert!(matches!(slave.io_control(&mut g, TCGETS as u32, None, 5), Err(FsError::InvalidParam)));
    assert!(matches!(slave.io_control(&mut g, TCSETS as u32, Some(arg), 5), Ok(PtyReply::Done)));
    assert!(matches!(slave.io_control(&mut g, 0x1234, Some(arg), 5), Err(FsError::NotSupported)));
}

#[test]
fn a_terminal_ends_with_its_master() {
    let (mut table, mut g, _master, slave) = terminal();
    let dir = PtsDir::new(3);
    assert_eq!(dir.find(&table, "0"), Ok(50));
    assert_eq!(dir.find(&table, "1"), Err(FsError::EntryNotFound));
    let mut wait = slave.async_poll();
    assert_eq!(wait.poll(&g), PtyWaitStep::Register);
    assert_eq!(wait.poll(&g), PtyWaitStep::Retain);
    table.close_master(&mut g);
    assert!(matches!(wait.poll(&g), PtyWaitStep::Ready(_)));
    let mut buf = [0u8; 4];
    assert_eq!(slave.read_at(&mut g, &mut buf), Ok(0));
    assert_eq!(dir.find(&table, "0"), Err(FsError::EntryNotFound));
    assert!(slave.poll(&g).read);
    assert_eq!(dir.metadata().type_, FileType::Dir);
}

#[test]
fn terminals_start_from_known_values() {
    assert_eq!(Termios::default_tty().c_cflag, 0x04bf);
    assert_eq!(VtMode::auto().mode, VT_AUTO);
    assert_eq!(SerialIcounter::default().rx, 0);
}

fn wide(min: u32, max: u32) -> SndInterval {
    SndInterval { min, max, flags: 0 }
}

fn anything() -> SndPcmHwParams {
    let mask = SndMask { bits: [u32::MAX; 8] };
    let iv = wide(0, u32::MAX);
    SndPcmHwParams {
        access: mask,
        format: mask,
        subformat: mask,
        sample_bits: iv,
        frame_bits: iv,
        channels: iv,
        rate: wide(44000, 48000),
        period_time: iv,
        period_size: wide(1024, 1024),
        period_bytes: iv,
        periods: iv,
        buffer_time: iv,
        buffer_size: wide(4096, 4096),
        buffer_bytes: iv,
        tick_time: iv,
        cmask: 0,
        info: 0,
        msbits: 0,
        rate_num: 0,
        rate_den: 0,
        fifo_size: 0,
    }
}

#[test]
fn a_request_is_cut_down_to_the_hardware() {
    let mut p = anything();
    let chosen = plan(&mut p, 16384).unwrap();
    assert_eq!((chosen.rate, chosen.period, chosen.buffer), (44100, 1024, 4096));
    assert_eq!((p.channels.min, p.channels.max), (2, 2));
    assert_eq!((p.rate.min, p.rate.max), (44100, 48000));
    assert_eq!(p.msbits, 16);
    let mut dev = PcmDev::new(0);
    assert_eq!(install(&mut dev.st, &mut p, chosen, None), Err(FsError::DeviceError));
    assert_eq!(install(&mut dev.st, &mut p, chosen, Some(48000)), Ok(()));
    assert_eq!((dev.st.rate, dev.st.buffer_size, dev.st.state), (48000, 4096, STATE_SETUP));
    assert_eq!(dev.st.boundary, 0x4000_0000_0000_0000);
    assert_eq!((p.rate.min, p.rate.max, p.rate_num), (48000, 48000, 48000));
    let mut mono = anything();
    mono.channels = wide(1, 1);
    assert_eq!(plan(&mut mono, 16384), Err(FsError::InvalidParam));
}

#[test]
fn the_stream_counts_what_is_queued() {
    let mut p = anything();
    let chosen = plan(&mut p, 16384).unwrap();
    let mut dev = PcmDev::new(1);
    install(&mut dev.st, &mut p, chosen, Some(44100)).unwrap();
    let view = PcmView { ring_bytes: 65536, queued_bytes: 400, sec: 1, nsec: 2 };
    assert_eq!(write_chunk(&dev.st, 0, 100_000, 0), 16384);
    assert_eq!(write_chunk(&dev.st, 16000, 100_000, 0), 384);
    assert_eq!(write_chunk(&dev.st, 0, 10, 8), 0);
    assert_eq!(dev.writei(8000, 0, Some(4000), 0), TransferStep::More(4000));
    assert_eq!((dev.st.appl_ptr, dev.st.state), (1000, STATE_RUNNING));
    assert_eq!(dev.writei(8000, 4000, Some(0), 3_999_999_999), TransferStep::Wait);
    assert_eq!(dev.writei(8000, 4000, Some(0), 4_000_000_000), TransferStep::Finished(1000));
    assert_eq!(dev.writei(8000, 4000, None, 0), TransferStep::Failed(FsError::DeviceError));
    let mut other = PcmDev::new(2);
    assert_eq!(other.writei(8000, 4000, Some(4000), u64::MAX), TransferStep::Finished(2000));
    assert!(!other.drain(400, 2, 1_999_999_999));
    assert_eq!(other.st.state, STATE_RUNNING);
    assert!(other.drain(400, 2, 2_000_000_000));
    assert_eq!(other.st.state, STATE_SETUP);
    assert_eq!(linux_object::snd::hw_ptr(&dev.st, 400), 900);
    assert_eq!(linux_object::snd::avail(&dev.st, 400), 3996);
    assert_eq!(dev.metadata(5, number).rdev, 116_048);
    let (reply, r) = dev.carry_out(PcmRequest::Delay, view, "card");
    assert_eq!(r, Ok(()));
    assert!(matches!(reply, PcmReply::Delay(100)));
    let (_, r) = dev.io_control(0x0000_0001, PcmArg::Nothing, view, "card");
    assert_eq!(r, Err(FsError::NotSupported));
    let (reply, r) = dev.io_control(0x4008_4150, PcmArg::Frames(10), view, "card");
    assert_eq!(r, Ok(()));
    assert!(matches!(reply, PcmReply::Transfer(40)));
    let (reply, r) = dev.io_control(0x8008_4121, PcmArg::Nothing, view, "card");
    assert_eq!(r, Ok(()));
    assert!(matches!(reply, PcmReply::Delay(100)));
    let (reply, _) = dev.io_control(0x8004_4100, PcmArg::Nothing, view, "card");
    assert!(matches!(reply, PcmReply::Version(0x0002_000e)));
    assert_eq!(dev.minor(), 48);
    assert_eq!(classify_pcm(0x0000_0001), Err(FsError::NotSupported));
    assert_eq!(classify_pcm(0x8004_4100), Ok(PcmCall::Version));
}

#[test]
fn names_are_cut_and_closed() {
    assert_eq!(fill_cstr(b"abc", 5), vec![b'a', b'b', b'c', 0, 0]);
    assert_eq!(fill_cstr(b"abcdef", 4), vec![b'a', b'b', b'c', 0]);
    let ctl = CtlDev::new(0);
    assert_eq!(ctl.metadata(5, number).rdev, 116_000);
    let arg = CtlArg { number: 0, device: 0, subdevice: 0, stream: 0 };
    assert!(matches!(ctl.io_control(0x1, arg, "x"), Err(FsError::NotSupported)));
}

#[test]
fn the_sound_device_speaks_one_format() {
    let v = DspView { rate: 48000, channels: 2, free: 8192, total: 65536, queued: 0 };
    let d = DspDev::new(1);
    assert_eq!(d.metadata(5, number).rdev, 14_019);
    assert!(matches!(d.io_control(SNDCTL_DSP_GETFMTS, 0, v), Ok(DspReply::Value(AFMT_S16_LE))));
    assert!(matches!(d.io_control(SNDCTL_DSP_SPEED, 44100, v), Ok(DspReply::AskRate(44100))));
    assert!(matches!(d.io_control(SNDCTL_DSP_RESET, 0, v), Ok(DspReply::ResetHardware)));
    assert!(matches!(d.io_control(0x1, 0, v), Err(FsError::NotSupported)));
    assert_eq!(d.after_reset(false), Err(FsError::DeviceError));
    assert_eq!(d.after_rate(Some(44100)), Ok(44100));
    assert_eq!(d.minor(), 19);
    assert!(matches!(d.write_step(v, 10, 0, Some(4), 0), WriteStep::More(4)));
    assert!(matches!(d.write_step(v, 10, 4, Some(6), 0), WriteStep::Finished(10)));
    assert!(matches!(d.write_step(v, 10, 4, None, 0), WriteStep::Failed(FsError::DeviceError)));
    assert!(matches!(d.write_step(v, 10, 4, Some(0), 1_999_999_999), WriteStep::Wait));
    assert!(matches!(d.write_step(v, 10, 4, Some(0), 2_000_000_000), WriteStep::Finished(4)));
    assert!(matches!(
        d.write_step(v, 10, 0, Some(0), 2_000_000_000),
        WriteStep::Failed(FsError::DeviceError)
    ));
    assert!(d.played_out(0, 2, 0) && d.played_out(9, 2, 2_000_000_000));
    assert!(!d.played_out(9, 2, 1_999_999_999));
    assert_eq!(drain_secs(v, 192_000 * 3), 4);
}

fn disk_with_mbr() -> RamBlock {
    let mut d = vec![0u8; 512 * 64];
    d[510] = 0x55;
    d[511] = 0xaa;
    let e = 446;
    d[e + 4] = 0x83;
    d[e + 8..e + 12].copy_from_slice(&8u32.to_le_bytes());
    d[e + 12..e + 16].copy_from_slice(&16u32.to_le_bytes());
    let e = 446 + 16;
    d[e + 4] = 0x83;
    d[e + 8..e + 12].copy_from_slice(&24u32.to_le_bytes());
    d[e + 12..e + 16].copy_from_slice(&32u32.to_le_bytes());
    RamBlock::new(d)
}

#[test]
fn partitions_are_found_in_the_boot_record() {
    assert_eq!(scan_partitions(&disk_with_mbr()), vec![(8, 16), (24, 32)]);
    assert!(scan_partitions(&RamBlock::new(vec![0u8; 512 * 8])).is_empty());
}

#[test]
fn a_partition_shows_its_part_of_the_disk() {
    let mut disk = disk_with_mbr();
    disk.0[512 * 9] = 7;
    let mut p = PartitionBlock::new(disk, 8, 16);
    assert_eq!(p.block_count(), 16);
    let mut buf = [0u8; 512];
    assert_eq!(p.read_block(1, &mut buf), Ok(()));
    assert_eq!(buf[0], 7);
    assert_eq!(p.read_block(16, &mut buf), Err(DeviceError::InvalidParam));
    assert_eq!(p.write_block(15, &[9u8; 512]), Ok(()));
    assert_eq!(p.parent.0[512 * 23], 9);
    assert_eq!(p.parent.0[512 * 24], 0);
}

#[test]
fn a_disk_node_reads_bytes_and_tells_its_size() {
    let mut d = BlockDev::new(3, disk_with_mbr(), 70);
    let mut buf = [0u8; 4];
    assert_eq!(d.read_at(509, &mut buf), Ok(4));
    assert_eq!(buf, [0, 0x55, 0xaa, 0]);
    assert_eq!(d.write_at(1000, b"xyz"), Ok(3));
    assert_eq!(d.read_at(1000, &mut buf), Ok(4));
    assert_eq!(&buf, b"xyz\0");
    assert!(matches!(d.io_control(BLKGETSIZE64, false), Ok(BlkReply::Bytes(32768))));
    assert!(matches!(d.io_control(BLKGETSIZE, false), Ok(BlkReply::Sectors(64))));
    assert!(matches!(d.io_control(0x1, false), Err(FsError::NotSupported)));
    assert_eq!(d.sync_data(), Ok(()));
    assert_eq!(d.metadata(number).rdev, 3_003);
    assert_eq!(d.block_scheme().0.len(), 32768);
}

#[test]
fn the_simulated_disk_reads_back_what_was_written() {
    let mut m = mocking_block(vec![0u8; 2048]);
    let client = mock_block(true).unwrap();
    assert!(mock_block(false).is_none());
    let w = client.submit_entry(EntryType::Block(1), OpCode::Write, 512, 0, 1);
    let mut buf = [5u8; 512];
    m.data.handle_entry(&w, &mut buf);
    m.submitted(w, 100, 110);
    let r = client.submit_entry(EntryType::Offset(510), OpCode::Read, 4, 0, 2);
    let mut got = [0u8; 4];
    m.data.handle_entry(&r, &mut got);
    m.submitted(r, 110, 112);
    assert_eq!(got, [0, 0, 5, 5]);
    assert!(m.handle_finished(131).is_empty());
    assert_eq!(m.handle_finished(132), vec![r]);
    assert_eq!(m.handle_finished(210), vec![w]);
    assert_eq!(client.answer(0, 4), None);
    assert_eq!(client.answer(BLKSIZE, 4), Some(4));
    assert_eq!(Entry::new().op, OpCode::Read);
    let mut mem = DiskMem { data: vec![0u8; 1024] };
    mem.write_block(1, &[3u8; 512]);
    let mut b = [0u8; 512];
    mem.read_block(1, &mut b);
    assert_eq!(b, [3u8; 512]);
}

#[test]
fn events_are_read_whole_and_in_order() {
    let mut d = EventDev::new(2, 9);
    let mut buf = [0u8; 60];
    assert_eq!(d.read_at(&mut buf[..23]), Err(FsError::InvalidParam));
    assert_eq!(d.read_at(&mut buf), Err(FsError::Again));
    for k in 0..3 {
        d.handle_input_event(&InputEvent { event_type: 1, code: 30 + k, value: -1 }, 7, 8);
    }
    assert_eq!(d.read_at(&mut buf), Ok(48));
    assert_eq!(buf[0], 7);
    assert_eq!(buf[8], 8);
    assert_eq!(&buf[16..24], &[1, 0, 30, 0, 255, 255, 255, 255]);
    assert_eq!(buf[42], 31);
    assert!(d.poll().read);
    for k in 0..100 {
        d.handle_input_event(&InputEvent { event_type: 1, code: k, value: 0 }, 0, 0);
    }
    assert_eq!(d.buf.len(), 64);
    assert_eq!(d.buf[63].code, 99);
    assert_eq!(d.minor(), 0x42);
    assert_eq!(d.metadata(number).rdev, 13_066);
    assert_eq!(d.write_at(b"x"), Err(FsError::NotSupported));
}

#[test]
fn input_requests_are_answered() {
    let d = EventDev::new(0, 9);
    let cmd = |size: u32, nr: u32| (2u32 << 30) | (size << 16) | (0x45 << 8) | nr;
    let ask = |c: u32, data: usize| d.io_control(c, data, b"kbd", &[0xff, 1, 2]);
    let r = ask(cmd(4, 1), 1).ok().unwrap();
    assert_eq!((r.bytes, r.ret), (vec![1, 0, 1, 0], 4));
    let r = ask(cmd(8, 2), 1).ok().unwrap();
    assert_eq!((r.bytes, r.ret), (vec![6, 0, 0, 0, 0, 0, 0, 0], 8));
    let r = ask(cmd(8, 3), 1).ok().unwrap();
    assert_eq!((r.bytes, r.ret), (vec![250, 0, 0, 0, 33, 0, 0, 0], 8));
    let r = ask(cmd(3, 6), 1).ok().unwrap();
    assert_eq!((r.bytes, r.ret), (b"kb\0".to_vec(), 3));
    let r = ask(cmd(0, 6), 1).ok().unwrap();
    assert_eq!((r.bytes, r.ret), (vec![], 0));
    let r = ask(cmd(9, 7), 1).ok().unwrap();
    assert_eq!((r.bytes, r.ret), (vec![0], 1));
    let r = ask(cmd(5, 0x18), 1).ok().unwrap();
    assert_eq!((r.bytes, r.ret), (vec![0; 5], 5));
    let r = ask(cmd(2, 0x21), 1).ok().unwrap();
    assert_eq!((r.bytes, r.ret), (vec![0xff, 1], 2));
    let r = ask(cmd(2, 0x30), 1).ok().unwrap();
    assert_eq!((r.bytes, r.ret), (vec![0, 0], 2));
    let r = ask(cmd(24, 0x40), 1).ok().unwrap();
    assert_eq!((r.bytes.len(), r.ret), (24, 0));
    let r = ask(cmd(4, 0x91), 0).ok().unwrap();
    assert_eq!(r.ret, 0);
    assert_eq!(EventDev::finish(&r, false), Err(FsError::InvalidParam));
    assert!(matches!(ask(cmd(4, 1), 0), Err(FsError::InvalidParam)));
    assert!(matches!(ask(cmd(4, 0xff), 1), Err(FsError::NotSupported)));
    assert!(matches!(ask(0x1, 1), Err(FsError::NotSupported)));
    assert_eq!(EventDev::capability_asked(cmd(2, 0x22)), Some(CapabilityType::RelAxis));
    assert_eq!(EventDev::capability_for_ev(0x06), None);
}

#[test]
fn a_wait_for_events_ends_without_a_subscription() {
    let mut w = EventFuture { sub_id: None };
    assert_eq!(w.poll(false), EventStep::Subscribe);
    w.subscribed(Some(4));
    assert_eq!(w.poll(false), EventStep::Parked);
    assert_eq!(w.poll(true), EventStep::Ready(Some(4)));
    assert_eq!(w.cancel(), None);
}

fn moved(n: u8, buttons: u8) -> MouseState {
    MouseState { dx: n as i32, dy: 0, dz: 0, buttons, packet: [n, n + 1, n + 2] }
}

#[test]
fn mouse_packets_are_a_stream_of_bytes() {
    let mut d = MiceDev::new(0, 5);
    assert_eq!(d.metadata(number).rdev, 13_032);
    let mut buf = [0u8; 8];
    assert_eq!(d.read_at(&mut buf), Err(FsError::Again));
    d.handle_mouse_packet(&moved(0, 0));
    assert_eq!(d.buf.len(), 0);
    d.handle_mouse_packet(&moved(10, 0));
    d.handle_mouse_packet(&moved(20, 0));
    assert_eq!(d.read_at(&mut buf[..2]), Ok(2));
    assert_eq!(d.read_at(&mut buf[2..8]), Ok(3));
    assert_eq!(&buf[..5], &[10, 11, 12, 20, 21]);
    assert_eq!(d.read_at(&mut buf), Ok(1));
    assert_eq!(buf[0], 22);
    d.handle_mouse_packet(&moved(0, 1));
    assert_eq!(d.buf.len(), 1);
    for k in 0..40 {
        d.handle_mouse_packet(&moved(k + 1, 1));
    }
    assert_eq!(d.buf.len(), 32);
    assert_eq!(d.minor(), 0x20);
    assert_eq!(d.write_at(b"x"), Err(FsError::NotSupported));
}

#[test]
fn every_mouse_has_a_node_and_all_share_one() {
    let v = MiceDev::from_input_devices(&[false, true, false, true]);
    assert_eq!(v.len(), 3);
    assert_eq!((v[0].name, v[0].id, v[0].mice.clone()), (Some(0), 0, vec![1]));
    assert_eq!((v[1].name, v[1].id, v[1].mice.clone()), (Some(1), 1, vec![3]));
    assert_eq!((v[2].name, v[2].id, v[2].mice.clone()), (None, 31, vec![1, 3]));
    assert!(MiceDev::from_input_devices(&[false]).is_empty());
    assert_eq!(MiceDev::from_input_devices(&[true; 40]).len(), 31);
}

#[test]
fn the_older_mouse_node_hands_out_whole_packets() {
    let mut d = InputMiceInode::new();
    let mut buf = [0u8; 3];
    assert_eq!(d.read_at(&mut buf), 0);
    for k in 0..33 {
        d.push([k, 0, 0]);
    }
    assert_eq!(d.read_at(&mut buf[..1]), 1);
    assert_eq!(buf[0], 1);
    assert_eq!(d.read_at(&mut buf), 3);
    assert_eq!(buf[0], 2);
    assert_eq!(d.metadata(number).rdev, 13_063);
}

#[test]
fn a_framebuffer_tells_its_layout() {
    let info = DisplayInfo { width: 800, height: 600, format: ColorFormat::ARGB8888, fb_size: 1_920_000 };
    let d = FbDev::new(info, 4);
    let v = FbVarScreeninfo::from(info);
    assert_eq!((v.xres, v.yres, v.bits_per_pixel), (800, 600, 32));
    assert_eq!(v.red, FbBitfield { offset: 16, length: 8, msb_right: 0 });
    assert_eq!(v.transp, FbBitfield { offset: 24, length: 8, msb_right: 0 });
    assert_eq!((v.pixclock, v.vmode, v.height, v.width, v.reserved), (0, 0, 0, 0, [0; 4]));
    assert_eq!(d.metadata(number).rdev, 29_000);
    let v = FbVarScreeninfo::from(DisplayInfo { format: ColorFormat::RGB332, ..info });
    assert_eq!((v.red.offset, v.green.offset, v.blue.length), (5, 3, 2));
    assert!(matches!(
        d.io_control(FBIOGET_FSCREENINFO, Some(0x1000)),
        Ok(FbReply::Fix(f)) if f.line_length == 3200 && f.smem_start == 0x1000
            && f.visual == FbVisual::TrueColor
    ));
    assert!(matches!(d.io_control(FBIOGET_VSCREENINFO, None), Ok(FbReply::Var(_))));
    assert!(matches!(d.io_control(1, None), Err(FsError::NotSupported)));
    assert_eq!(d.get_vmo(4096, 100, Some(0x10000)), Ok((0x11000, 1)));
    assert_eq!(d.get_vmo(1, 100, Some(0)), Err(LxError::EINVAL));
    assert_eq!(d.get_vmo(0, 100, None), Err(LxError::ENOMEM));
}

#[test]
fn a_framebuffer_is_read_and_written_within_its_bounds() {
    let info = DisplayInfo { width: 2, height: 1, format: ColorFormat::ARGB8888, fb_size: 8 };
    let d = FbDev::new(info, 4);
    let mut fb = [1u8, 2, 3, 4, 5, 6, 7, 8];
    let mut buf = [0u8; 4];
    assert_eq!(d.read_at(&fb, 6, &mut buf), 2);
    assert_eq!(buf, [7, 8, 0, 0]);
    assert_eq!(d.read_at(&fb, 8, &mut buf), 0);
    assert_eq!(d.write_at(&mut fb, 6, &[9, 9, 9]), 2);
    assert_eq!(fb, [1, 2, 3, 4, 5, 6, 9, 9]);
}

#[test]
fn a_serial_port_is_read_until_it_is_empty() {
    let d = UartDev::new(1, 3);
    let mut buf = [0u8; 4];
    assert_eq!(d.start(4), UartStep::More(0));
    assert_eq!(d.start(0), UartStep::Done(0));
    assert_eq!(d.read_step(&mut buf, 0, Ok(Some(b'a'))), UartStep::More(1));
    assert_eq!(d.read_step(&mut buf, 1, Ok(None)), UartStep::Done(1));
    assert_eq!(buf[0], b'a');
    assert_eq!(d.read_step(&mut buf, 3, Ok(Some(b'z'))), UartStep::Done(4));
    assert_eq!(
        d.read_step(&mut buf, 0, Err(DeviceError::NotReady)),
        UartStep::Failed(FsError::Busy)
    );
    assert_eq!(d.write_step(2, 0, Ok(())), UartStep::More(1));
    assert_eq!(d.write_step(2, 1, Ok(())), UartStep::Done(2));
    assert_eq!(
        d.write_step(2, 0, Err(DeviceError::IoError)),
        UartStep::Failed(FsError::DeviceError)
    );
    assert_eq!(d.poll(), PollStatus { read: true, write: false, error: false });
    assert_eq!(d.io_control(5), Ok(0));
    assert_eq!(d.metadata(number).rdev, 4_000 + d.index);
}

/// A device number that shows both of its parts.
fn number(major: usize, minor: usize) -> usize {
    major * 1000 + minor
}

#[test]
fn every_error_is_explained() {
    assert_eq!(LxError::ETIMEDOUT.explain(), "Connection timeout");
    assert_eq!(LxError::EUNDEF.explain(), "Unknown error");
    for e in [LxError::EPERM, LxError::EIDRM, LxError::ENOTCONN, LxError::ECONNREFUSED] {
        assert_ne!(e.explain(), "Unknown error");
    }
}

#[test]
fn errors_convert() {
    assert_eq!(convert_error(DeviceError::NotSupported), FsError::NotSupported);
    assert_eq!(convert_error(DeviceError::InvalidParam), FsError::InvalidParam);
    assert_eq!(LxError::from(FsError::EntryNotFound), LxError::ENOENT);
    assert_eq!(LxError::from(FsError::Again), LxError::EAGAIN);
    assert_eq!(LxError::from(UserError::InvalidPointer), LxError::EFAULT);
    assert_eq!(lx_from_zx(ZxError::TIMED_OUT), LxError::ETIMEDOUT);
    assert_eq!(LxError::ENOENT.errno(), 2);
    assert_eq!(LxError::ENOENT.explain(), "No such file or directory");
}
