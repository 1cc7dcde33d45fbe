use linux_object::drm::{
    alloc_buffer, arm_coalesced_drm_timer, create_blob, create_fb, deliver_pending_drm_timer,
    destroy_blob, display_mode, export_handle, gem_close, get_blob, get_fb, get_handle, has_events,
    import_dmabuf, next_vblank_deadline, queue_flip_event, queue_vblank_event, read_event,
    register_driver, rmfb, schedule_flip_event, schedule_vblank_event, set_atomic_enabled,
    set_ce_present_enabled, software_kms_active, vblank_seq_now, BlobDestroy, DisplayInfo,
    DriverInfo, DrmState, GemHandle, PendingDrmTimer, FIRST_BLOB_ID, MAX_LIVE_GEMS, SYNTH_CONNECTOR_ID,
    SYNTH_CRTC_ID, SYNTH_ENCODER_ID, SYNTH_PLANE_ID, VBLANK_PERIOD_NS,
};
use linux_object::drm_atomic::{atomic_check, atomic_commit, AtomicError, AtomicUpdate};
use linux_object::drm_dev::{DrmDev, DrmEventWait, DrmWaitStep};
use linux_object::drm_ioctl::{
    check_sync, driver_error, edid_mm, io_control, resources, sync, sync_deadline_us, sync_found,
    sync_wait_result, waits_for_hardware, SyncStep, SyncWalk, AtomicRequest, DrmContext, DrmReply, DrmRequest,
    ResourceQuery, SyncCommand, SyncJob, SyncRequest, SyncWait, VblankReply, SYNC_WAIT_ALL,
    DRM_MODE_ATOMIC_TEST_ONLY, DRM_MODE_PAGE_FLIP_EVENT, VBLANK_EVENT,
};
use linux_object::drm_kms::{
    blit_bands, cursor_source, move_cursor, page_flip, present_now, present_path,
    repaint_for_cursor, represent_if_owner_active, restore_rect, scanout, scanout_region,
    set_cursor_bo, Blit, PresentPath, Scanout,
};
use linux_object::drm_props::{
    connector_props, crtc_props, make_modeinfo, plane_props, prop_spec, PROP_ACTIVE, PROP_CRTC_ID,
    PROP_FB_ID, PROP_MODE_ID, PROP_TYPE,
};
use linux_object::drm_scheme::{
    classify, clip_union, create_dumb, dumb_geometry, get_cap, get_vmo, map_dumb, permit,
    render_allowed, set_client_cap, set_version, unique, version, ClipRect, DrmCall, VersionQuery,
    RENDER_MINOR,
};
use linux_object::drm_topology::{
    get_connector, get_crtc, get_plane, get_planes, get_resources, mm_guess, DriverAnswers,
    DriverResources,
};
use linux_object::error::FsError;
use linux_object::vfs::PollStatus;

fn quiet() -> DriverAnswers {
    DriverAnswers {
        caps: None,
        resources: Vec::new(),
        connectors: Vec::new(),
        edids: Vec::new(),
        crtcs: Vec::new(),
        planes: Vec::new(),
        boot_edid: None,
    }
}

fn context() -> DrmContext {
    DrmContext {
        active_vt: 0,
        now_ns: 0,
        pid: 7,
        nouveau: false,
        hw_flip: false,
        backing: Some(0x10_0000),
        accepted: true,
        driver_fb: None,
        driver_closed: false,
        answers: quiet(),
    }
}

fn card() -> DrmState {
    let mut st = DrmState::new(Some(DisplayInfo { width: 800, height: 600, pitch: 3200 }));
    register_driver(&mut st, DriverInfo { simplefb: true, hardware_kms: false });
    st
}

fn frame(st: &mut DrmState) -> u32 {
    let g = create_dumb(st, 800, 600, 32, Some(0x10_0000), true, 7).ok().unwrap();
    create_fb(st, g.handle, 800, 600, g.pitch, None).unwrap()
}

#[test]
fn buffers_are_handed_out_and_shared() {
    let mut st = card();
    assert!(software_kms_active(&st));
    let a = alloc_buffer(&mut st, 4096, Some(0x5000), true, 7).unwrap();
    assert_eq!(get_handle(&st, a.id), Some(a));
    assert_eq!(export_handle(&st, a.id), Some((0x5000, 4096)));
    assert_eq!(alloc_buffer(&mut st, 4096, None, true, 7), None);
    assert_eq!(alloc_buffer(&mut st, 4096, Some(0x5000), false, 7), None);
    let mut bare = DrmState::new(None);
    let h = alloc_buffer(&mut bare, 4096, Some(0x5000), false, 7).unwrap();
    assert_eq!(get_handle(&bare, h.id), Some(h));
    let b = import_dmabuf(&mut st, 0x5000, 4096, 8);
    assert_ne!(a.id, b);
    assert_eq!(get_handle(&st, b), Some(GemHandle { id: b, size: 4096, phys_addr: 0x5000 }));
    while st.handles.len() < MAX_LIVE_GEMS {
        alloc_buffer(&mut st, 4096, Some(0x1000), true, 7);
    }
    assert_eq!(alloc_buffer(&mut st, 4096, Some(0x1000), true, 7), None);
}

#[test]
fn software_draws_only_where_no_driver_scans_out() {
    let display = Some(DisplayInfo { width: 800, height: 600, pitch: 3200 });
    assert!(!software_kms_active(&DrmState::new(None)));
    let mut st = DrmState::new(display);
    assert!(software_kms_active(&st));
    register_driver(&mut st, DriverInfo { simplefb: false, hardware_kms: true });
    assert!(!software_kms_active(&st));
    register_driver(&mut st, DriverInfo { simplefb: false, hardware_kms: false });
    assert!(!st.drivers[0].hardware_kms && st.drivers[1].hardware_kms);
    assert!(!software_kms_active(&st));
}

#[test]
fn names_are_never_reused() {
    let mut st = card();
    let a = frame(&mut st);
    let b = frame(&mut st);
    assert_ne!(a, b);
    let kept = get_fb(&st, b);
    assert!(get_fb(&st, a).is_some() && rmfb(&mut st, a));
    assert!(get_fb(&st, a).is_none());
    assert_eq!(get_fb(&st, b), kept);
    let g = st.handles[0].handle.id;
    let h = st.handles[1].handle;
    assert!(gem_close(&mut st, g));
    assert!(get_handle(&st, g).is_none());
    assert_eq!(get_handle(&st, h.id), Some(h));
    let c = alloc_buffer(&mut st, 4096, Some(0x5000), true, 7).unwrap();
    assert!(c.id != g && c.id != h.id);
    let x = create_blob(&mut st, vec![1], true);
    let y = create_blob(&mut st, vec![2], true);
    assert!(matches!(destroy_blob(&mut st, x), BlobDestroy::Destroyed));
    assert_eq!((get_blob(&st, x), get_blob(&st, y)), (None, Some(vec![2])));
    assert!(create_blob(&mut st, vec![3], true) > y);
}

#[test]
fn a_blob_outlasts_the_others() {
    let mut st = card();
    let id = create_blob(&mut st, vec![7, 8], true);
    assert!(id >= FIRST_BLOB_ID);
    let mut others = Vec::new();
    for n in 0..20u8 {
        let other = create_blob(&mut st, vec![n], n % 2 == 0);
        assert_ne!(other, id);
        others.push(other);
    }
    for other in others {
        let _ = destroy_blob(&mut st, other);
        assert_eq!(get_blob(&st, id), Some(vec![7, 8]));
    }
}

#[test]
fn listed_objects_are_taken_in_order() {
    let mut w = SyncWalk::new(SyncJob::Query, vec![5, 6, 7], vec![0, 0, 9]);
    assert_eq!(w.next(), SyncStep::Apply(5, None));
    w.answer(Some(50));
    assert_eq!(w.next(), SyncStep::Apply(6, None));
    w.answer(Some(60));
    assert_eq!(w.next(), SyncStep::Apply(7, None));
    w.answer(None);
    assert_eq!(w.next(), SyncStep::Finished(Err(FsError::EntryNotFound)));
    assert_eq!((w.done, w.points), (2, vec![50, 60, 9]));
    let mut t = SyncWalk::new(SyncJob::TimelineSignal, vec![1, 2], vec![10, 20]);
    assert_eq!(t.next(), SyncStep::Apply(1, Some(10)));
    t.answer(Some(0));
    assert_eq!(t.next(), SyncStep::Apply(2, Some(20)));
    t.answer(Some(0));
    assert_eq!(t.next(), SyncStep::Finished(Ok(())));
    assert_eq!((t.done, t.points), (2, vec![10, 20]));
}

#[test]
fn dumb_buffers_have_a_padded_pitch() {
    assert_eq!(dumb_geometry(800, 600, 32), Some((3200, 3200 * 600)));
    assert_eq!(dumb_geometry(0, 600, 32), None);
    assert_eq!(dumb_geometry(u32::MAX, u32::MAX, 32), None);
    let mut st = card();
    let r = create_dumb(&mut st, 800, 600, 32, Some(0x10_0000), true, 7).ok().unwrap();
    assert_eq!((r.pitch, r.size), (3200, 3200 * 600));
    assert_eq!(map_dumb(r.handle), r.handle as u64 * 4096);
    let at = map_dumb(r.handle) as usize;
    assert_eq!(get_vmo(&st, at, 4096, None), Ok((0x10_0000, 4096)));
    assert!(get_vmo(&st, 4096 * 999, 4096, None).is_err());
}

#[test]
fn frames_are_clipped_to_the_display() {
    let mut st = card();
    let fb = frame(&mut st);
    assert_eq!(scanout(&mut st, 12345), Scanout::Refused);
    let whole = Blit { x: 0, y: 0, w: 800, h: 600, src_off: 0, src_stride: 800 };
    assert_eq!(
        scanout(&mut st, fb),
        Scanout::Draw { engine: None, blit: Some(whole), cursor: None }
    );
    let part = Blit { x: 790, y: 599, w: 10, h: 1, src_off: 599 * 800 + 790, src_stride: 800 };
    assert_eq!(
        scanout_region(&mut st, fb, Some((790, 599, 100, 100))),
        Scanout::Draw { engine: None, blit: Some(part), cursor: None }
    );
    for unusable in [(800, 0, 5, 5), (0, 600, 5, 5), (9000, 9000, 1, 1), (3, 3, 0, 5), (3, 3, 5, 0)] {
        assert_eq!(
            scanout_region(&mut st, fb, Some(unusable)),
            Scanout::Draw { engine: None, blit: Some(whole), cursor: None }
        );
    }
    set_ce_present_enabled(&mut st, true);
    assert_eq!(
        scanout(&mut st, fb),
        Scanout::Draw { engine: Some(3200 * 600), blit: Some(whole), cursor: None }
    );
    assert_eq!(
        scanout_region(&mut st, fb, Some((800, 600, 1, 1))),
        Scanout::Draw { engine: Some(3200 * 600), blit: Some(whole), cursor: None }
    );
    assert!(rmfb(&mut st, fb));
    assert!(!rmfb(&mut st, fb));
    assert_eq!(get_fb(&st, fb), None);
}

#[test]
fn frames_go_out_in_bands() {
    let b = blit_bands(70, 800, 800 * 70);
    let rows: Vec<(u32, u32, usize)> = b.iter().map(|x| (x.row, x.rows, x.src_off)).collect();
    assert_eq!(rows, vec![(0, 32, 0), (32, 32, 25600), (64, 6, 51200)]);
    assert_eq!(blit_bands(70, 800, 800).len(), 1);
    assert!(blit_bands(0, 800, 800).is_empty());
}

#[test]
fn the_cursor_is_restored_and_drawn() {
    let mut st = card();
    let fb = frame(&mut st);
    let bo = alloc_buffer(&mut st, 64 * 64 * 4, Some(0x9000), true, 7).unwrap();
    assert_eq!(cursor_source(&st, bo.id, 64, 64), Some((0x9000, 4096)));
    assert_eq!(cursor_source(&st, bo.id, 65, 64), None);
    assert!(repaint_for_cursor(&mut st, 0).is_none());
    assert!(present_now(&mut st, 0, fb, SYNTH_CRTC_ID, false).flipped);
    assert!(set_cursor_bo(&mut st, bo.id, 64, 64, vec![1; 4096]));
    move_cursor(&mut st, -10, 20);
    let r = repaint_for_cursor(&mut st, 0).unwrap();
    assert_eq!((r.restore, r.draw), (None, Some((-10, 20, 64, 64))));
    move_cursor(&mut st, 100, 100);
    let r = repaint_for_cursor(&mut st, 0).unwrap();
    let old = Blit { x: 0, y: 19, w: 55, h: 66, src_off: 19 * 800, src_stride: 800 };
    assert_eq!(r.restore, Some(old));
    assert!(repaint_for_cursor(&mut st, 1).is_none());
    assert_eq!(restore_rect(100, 10, 10, 10, 20, 0, 5, 5), None);
}

#[test]
fn background_frames_are_dropped() {
    let mut st = card();
    let fb = frame(&mut st);
    assert_eq!(present_path(&st, 3, fb), PresentPath::Software);
    let p = present_now(&mut st, 3, fb, SYNTH_CRTC_ID, false);
    assert!(p.flipped && p.take_console);
    assert_eq!((st.graphics_vt, st.crtc_fb), (Some(3), fb));
    assert_eq!(present_path(&st, 4, fb), PresentPath::Dropped);
    assert!(represent_if_owner_active(&mut st, 4).is_none());
    assert!(represent_if_owner_active(&mut st, 3).is_some());
    let mut hw = DrmState::new(None);
    register_driver(&mut hw, DriverInfo { simplefb: false, hardware_kms: true });
    assert_eq!(present_path(&hw, 0, 9), PresentPath::Driver(9));
    assert!(!software_kms_active(&hw));
}

#[test]
fn a_flip_completes_at_the_next_vblank() {
    let mut st = card();
    let fb = frame(&mut st);
    let (p, at) = page_flip(&mut st, 0, fb, SYNTH_CRTC_ID, 0xabcd, false, 1_000);
    assert!(p.flipped);
    assert!(at.unwrap() >= 1_000 && at.unwrap() <= 1_000 + VBLANK_PERIOD_NS);
    assert!(!has_events(&st));
    deliver_pending_drm_timer(&mut st, at.unwrap());
    assert!(has_events(&st));
    let mut small = [0u8; 16];
    assert_eq!(read_event(&mut st, &mut small), None);
    let mut buf = [0u8; 32];
    assert_eq!(read_event(&mut st, &mut buf), Some(32));
    assert_eq!(&buf[0..8], &[2, 0, 0, 0, 32, 0, 0, 0]);
    assert_eq!(&buf[8..16], &0xabcdu64.to_le_bytes());
    assert_eq!(&buf[28..32], &SYNTH_CRTC_ID.to_le_bytes());
    assert!(!has_events(&st));
}

#[test]
fn one_timer_serves_until_it_fires() {
    let mut st = card();
    assert!(schedule_flip_event(&mut st, 1, 5, 0).is_some());
    assert_eq!(schedule_vblank_event(&mut st, 6, 0), None);
    let later = PendingDrmTimer::Flip { crtc_id: 1, user_data: 8 };
    assert_eq!(arm_coalesced_drm_timer(&mut st, later, 0), None);
    deliver_pending_drm_timer(&mut st, 20_000_000);
    assert!(!st.timer_armed);
    queue_flip_event(&mut st, 1, 9, 1_500_000_000);
    queue_vblank_event(&mut st, 4, 10, 1_500_000_000);
    let e = st.events.back().unwrap();
    assert_eq!((e.tv_sec, e.tv_usec, e.sequence), (1, 500_000, 4));
    assert_eq!(vblank_seq_now(VBLANK_PERIOD_NS * 5), 5);
    let t = next_vblank_deadline(&mut st, 0);
    assert!(next_vblank_deadline(&mut st, t) > t);
}

#[test]
fn blobs_belong_to_their_maker() {
    let mut st = card();
    let a = create_blob(&mut st, vec![1, 2, 3], true);
    let b = create_blob(&mut st, vec![4], false);
    assert_eq!((a, b), (30000, 30001));
    assert_eq!(get_blob(&st, a), Some(vec![1, 2, 3]));
    assert_eq!(destroy_blob(&mut st, b), BlobDestroy::KernelOwned);
    assert_eq!(destroy_blob(&mut st, a), BlobDestroy::Destroyed);
    assert_eq!(destroy_blob(&mut st, a), BlobDestroy::NotFound);
}

#[test]
fn commands_are_known_by_number() {
    assert_eq!(classify(0xc0406400), DrmCall::Version);
    assert_eq!(classify(0xc03864bc), DrmCall::Atomic);
    assert_eq!(classify(0xc0006440), DrmCall::Driver);
    assert!(render_allowed(0xc010640c));
    assert!(!render_allowed(0xc06864a2));
    assert_eq!(permit(0, 0xc06864a2), Ok(DrmCall::SetCrtc));
    assert_eq!(permit(RENDER_MINOR, 0xc06864a2), Err(FsError::NoPermission));
    assert_eq!(permit(RENDER_MINOR, 0xc010640c), Ok(DrmCall::GetCap));
}

#[test]
fn the_card_describes_itself() {
    let q = VersionQuery { name_len: 4, name: 1, date_len: 0, date: 1, desc_len: 9, desc: 0 };
    let v = version(&q, true);
    assert_eq!(v.name.bytes, b"nouv".to_vec());
    assert_eq!(v.name.len, 8);
    assert!(v.date.bytes.is_empty() && v.desc.bytes.is_empty());
    assert!(unique(0, 0).bytes.is_empty());
    assert_eq!(get_cap(0x1, false), 1);
    assert_eq!(get_cap(0x3, false), 24);
    assert_eq!((get_cap(0x13, false), get_cap(0x13, true)), (0, 1));
    assert_eq!(get_cap(0x99, true), 0);
    let (reply, verdict) = set_version(1, 4, -1);
    assert_eq!((reply, verdict), ((1, 4, 1, 0), Ok(())));
    assert!(set_version(2, 0, -1).1.is_err());
    let mut st = card();
    assert_eq!(set_client_cap(&mut st, 2, 1), Ok(()));
    assert!(set_client_cap(&mut st, 3, 1).is_err());
    set_atomic_enabled(&mut st, true);
    assert_eq!(set_client_cap(&mut st, 3, 1), Ok(()));
    assert!(st.client_atomic);
}

#[test]
fn the_mode_is_the_displays_own() {
    let m = make_modeinfo(800, 600);
    assert_eq!(m.len(), 68);
    assert_eq!(&m[0..4], &(880u32 * 630 * 60 / 1000).to_le_bytes());
    assert_eq!(&m[4..6], &800u16.to_le_bytes());
    assert_eq!(&m[14..16], &600u16.to_le_bytes());
    assert_eq!(&m[36..44], b"800x600\0");
    assert_eq!(display_mode(&card()), Some((800, 600, 3200)));
    assert_eq!(mm_guess(960), 254);
    assert_eq!(mm_guess(0), 1);
}

#[test]
fn the_plain_card_has_one_of_each() {
    let st = card();
    let d = quiet();
    let (fbs, crtcs, connectors) = get_resources(&st, &d);
    assert!(fbs.is_empty());
    assert_eq!((crtcs, connectors), (vec![SYNTH_CRTC_ID], vec![SYNTH_CONNECTOR_ID]));
    assert_eq!(get_planes(&st, &d), vec![SYNTH_PLANE_ID]);
    assert!(get_connector(&st, &d, SYNTH_CONNECTOR_ID).unwrap().connected);
    assert!(get_connector(&st, &d, 77).is_none());
    assert!(get_crtc(&st, &d, SYNTH_CRTC_ID).is_some());
    let plane = get_plane(&st, &d, SYNTH_PLANE_ID).unwrap();
    assert!(plane_props(&st, &plane).contains(&(PROP_TYPE, 1)));
    assert!(crtc_props(&st).is_empty());
    let mut asking = card();
    set_atomic_enabled(&mut asking, true);
    set_client_cap(&mut asking, 3, 1).unwrap();
    assert_eq!(crtc_props(&asking), vec![(PROP_ACTIVE, 0), (PROP_MODE_ID, 0)]);
    assert_eq!(plane_props(&asking, &plane).len(), 11);
    assert!(!connector_props(&st, &d, SYNTH_CONNECTOR_ID).is_empty());
    assert!(prop_spec(PROP_TYPE).unwrap().enums.contains(&(1, "Primary")));
    assert!(prop_spec(9).is_none());
    let mut hw = DrmState::new(None);
    register_driver(&mut hw, DriverInfo { simplefb: false, hardware_kms: true });
    let d = DriverAnswers {
        resources: vec![DriverResources {
            hardware_kms: true,
            crtcs: vec![5, 5],
            connectors: vec![6],
            planes: vec![],
        }],
        ..quiet()
    };
    let (_, crtcs, connectors) = get_resources(&hw, &d);
    assert_eq!((crtcs, connectors), (vec![5], vec![6]));
}

#[test]
fn monitor_sizes_come_from_the_detailed_timing_first() {
    let mut e = [0u8; 128];
    assert_eq!(edid_mm(&e), None);
    e[21] = 30;
    e[22] = 20;
    assert_eq!(edid_mm(&e), Some((300, 200)));
    e[54] = 1;
    e[66] = 0x2c;
    e[67] = 0xc8;
    e[68] = 0x10;
    assert_eq!(edid_mm(&e), Some((300, 200)));
    e[66] = 0x2d;
    assert_eq!(edid_mm(&e), Some((301, 200)));
}

#[test]
fn atomic_requests_are_checked_before_they_apply() {
    let mut st = card();
    let fb = frame(&mut st);
    let mode = create_blob(&mut st, make_modeinfo(800, 600), true);
    let other = create_blob(&mut st, make_modeinfo(640, 480), true);
    let none = AtomicUpdate::default();
    assert_eq!(atomic_check(&st, &none, false), None);
    let u = AtomicUpdate {
        plane_fb_id: Some(fb),
        plane_crtc_id: Some(SYNTH_CRTC_ID),
        active: Some(true),
        mode_blob: Some(mode),
        src_w: Some(800 << 16),
        src_h: Some(600 << 16),
        ..none
    };
    assert_eq!(atomic_check(&st, &u, false), Some(AtomicError::Invalid));
    assert_eq!(atomic_check(&st, &u, true), None);
    let wrong = AtomicUpdate { mode_blob: Some(other), ..u };
    assert_eq!(atomic_check(&st, &wrong, true), Some(AtomicError::Invalid));
    let lost = AtomicUpdate { plane_fb_id: Some(999), ..u };
    assert_eq!(atomic_check(&st, &lost, true), Some(AtomicError::NotFound));
    let wide = AtomicUpdate { src_w: Some(801 << 16), ..u };
    assert_eq!(atomic_check(&st, &wide, true), Some(AtomicError::Invalid));
    let stray = AtomicUpdate { connector_crtc_id: Some(9), ..u };
    assert_eq!(atomic_check(&st, &stray, true), Some(AtomicError::NotFound));
    assert!(atomic_commit(&mut st, 0, &u, true, true, true, 5, false, 0).is_ok());
    assert!(!st.atomic.active && st.pending.is_none());
    let c = atomic_commit(&mut st, 0, &u, false, true, true, 5, false, 0).ok().unwrap();
    assert!(c.present.unwrap().flipped && c.timer.is_some());
    assert!(st.atomic.active);
    assert_eq!(get_blob(&st, st.atomic.mode_blob_id), Some(make_modeinfo(800, 600)));
}

#[test]
fn atomic_needs_a_client_that_asked_for_it() {
    let mut st = card();
    let fb = frame(&mut st);
    let request = |flags: u32, objs: Vec<(u32, u32)>, props: Vec<(u32, u64)>| AtomicRequest {
        flags,
        reserved: 0,
        user_data: 4,
        count_objs: objs.len() as u32,
        objs_ptr: 1,
        count_props_ptr: 1,
        props_ptr: 1,
        values_ptr: 1,
        answers: props.iter().map(|_| quiet()).collect(),
        objs,
        props,
    };
    let q = request(DRM_MODE_ATOMIC_TEST_ONLY, Vec::new(), Vec::new());
    assert!(io_control(&mut st, &context(), DrmRequest::Atomic(q)).is_err());
    set_atomic_enabled(&mut st, true);
    set_client_cap(&mut st, 3, 1).unwrap();
    let q = request(DRM_MODE_ATOMIC_TEST_ONLY | DRM_MODE_PAGE_FLIP_EVENT, Vec::new(), Vec::new());
    assert!(matches!(
        io_control(&mut st, &context(), DrmRequest::Atomic(q)),
        Err(FsError::InvalidParam)
    ));
    let props = vec![(PROP_FB_ID, fb as u64), (PROP_CRTC_ID, SYNTH_CRTC_ID as u64)];
    let q = request(DRM_MODE_PAGE_FLIP_EVENT, vec![(SYNTH_PLANE_ID, 2)], props);
    assert!(matches!(
        io_control(&mut st, &context(), DrmRequest::Atomic(q)),
        Ok(DrmReply::Committed(_))
    ));
    assert_eq!(st.crtc_fb, fb);
    let q = request(0, vec![(SYNTH_PLANE_ID, 1)], vec![(PROP_MODE_ID, 0)]);
    assert!(io_control(&mut st, &context(), DrmRequest::Atomic(q)).is_err());
}

#[test]
fn requests_reach_their_handlers() {
    let mut st = card();
    let c = context();
    let dumb = io_control(&mut st, &c, DrmRequest::CreateDumb { width: 800, height: 600, bpp: 32 });
    let handle = match dumb {
        Ok(DrmReply::Dumb(d)) => d.handle,
        _ => panic!("a buffer"),
    };
    let add = DrmRequest::AddFb { handle, width: 800, height: 600, pitch: 3200 };
    let fb = match io_control(&mut st, &c, add) {
        Ok(DrmReply::Value(id)) => id as u32,
        _ => panic!("a framebuffer"),
    };
    let flip = DrmRequest::PageFlip { fb_id: fb, crtc_id: SYNTH_CRTC_ID, user_data: 1 };
    assert!(matches!(io_control(&mut st, &c, flip), Ok(DrmReply::Flip(p, Some(_))) if p.flipped));
    assert!(matches!(io_control(&mut st, &c, DrmRequest::GetFb(fb)), Ok(DrmReply::Fb(f)) if f.handle == handle && f.bpp == 32 && f.depth == 24));
    assert!(io_control(&mut st, &c, DrmRequest::GetFb(99)).is_err());
    assert!(matches!(
        io_control(&mut st, &c, DrmRequest::GetEncoder),
        Ok(DrmReply::Encoder(e)) if e.encoder_id == SYNTH_ENCODER_ID
    ));
    let wait = DrmRequest::WaitVblank { typ: VBLANK_EVENT, signal: 3 };
    assert!(matches!(
        io_control(&mut st, &c, wait),
        Ok(DrmReply::Vblank(VblankReply::Event(None)))
    ));
    assert!(matches!(io_control(&mut st, &c, DrmRequest::DropMaster), Ok(DrmReply::TextConsole)));
    assert_eq!(st.graphics_vt, None);
    assert!(io_control(&mut st, &c, DrmRequest::GemClose(handle)).is_ok());
    assert!(io_control(&mut st, &c, DrmRequest::GemClose(handle)).is_err());
    assert!(matches!(io_control(&mut st, &c, DrmRequest::Driver), Ok(DrmReply::AskDriver)));
    let mut empty = DrmState::new(None);
    assert!(matches!(
        io_control(&mut empty, &c, DrmRequest::Driver),
        Err(FsError::NotSupported)
    ));
    let old = DrmRequest::SetVersion { di_major: 2, di_minor: 0, dd_major: -1 };
    assert!(matches!(
        io_control(&mut st, &c, old),
        Ok(DrmReply::Versions((1, 4, 1, 0), Err(FsError::InvalidParam)))
    ));
    let kind = DrmRequest::GetProperty {
        prop_id: PROP_TYPE,
        values_ptr: 0,
        count_values: 0,
        enums_ptr: 1,
        count_enums: 3,
    };
    match io_control(&mut st, &c, kind) {
        Ok(DrmReply::Property(p)) => {
            assert_eq!(&p.name[..5], b"type\0");
            assert_eq!(p.name.len(), 32);
            assert_eq!(&p.enum_names[1][..8], b"Primary\0");
            assert!(p.copy_enums && !p.copy_values);
        }
        _ => panic!("a property"),
    }
    let q = ResourceQuery {
        fb_ptr: 0,
        crtc_ptr: 1,
        connector_ptr: 1,
        encoder_ptr: 1,
        count_fbs: 0,
        count_crtcs: 1,
        count_connectors: 0,
        count_encoders: 1,
    };
    let r = resources(&st, &q, &c.answers);
    assert!(r.copy_crtcs && !r.copy_connectors && r.copy_encoder);
}

#[test]
fn a_render_node_keeps_off_the_screen() {
    let mut st = card();
    let node = DrmDev::new(RENDER_MINOR, 10);
    let c = context();
    let set = DrmRequest::SetCrtc { fb_id: 1, crtc_id: SYNTH_CRTC_ID };
    assert!(matches!(
        node.io_control(&mut st, &c, 0xc06864a2, set),
        Err(FsError::NoPermission)
    ));
    assert!(matches!(
        node.io_control(&mut st, &c, 0xc010640c, DrmRequest::GetCap(3)),
        Ok(DrmReply::Value(24))
    ));
    assert_eq!(node.read_at(&mut st, &mut [0u8; 32]), Err(FsError::Again));
    assert_eq!(node.poll(&st), PollStatus { read: false, write: true, error: false });
    let m = node.metadata(|major: usize, minor: usize| major * 1000 + minor);
    assert_eq!(m.rdev, 226 * 1000 + node.minor as usize);
}

#[test]
fn an_event_wait_subscribes_once() {
    let mut w = DrmEventWait { sub_id: None };
    let idle = PollStatus { read: false, write: true, error: false };
    let ready = PollStatus { read: true, write: true, error: false };
    assert_eq!(w.poll(Ok(idle)), DrmWaitStep::Subscribe);
    w.subscribed(Some(4));
    assert_eq!(w.poll(Ok(idle)), DrmWaitStep::Parked);
    assert_eq!(w.poll(Ok(ready)), DrmWaitStep::Ready(Ok(ready), Some(4)));
    assert_eq!(w.cancel(), None);
}

#[test]
fn damage_is_one_rectangle() {
    let a = ClipRect { x1: 10, y1: 10, x2: 20, y2: 20 };
    let b = ClipRect { x1: 15, y1: 5, x2: 40, y2: 12 };
    let empty = ClipRect { x1: 0, y1: 0, x2: 0, y2: 9 };
    assert_eq!(clip_union(&vec![a, empty, b]), Some((10, 5, 30, 15)));
    assert_eq!(clip_union(&vec![empty]), None);
}

#[test]
fn synchronisation_calls_are_checked() {
    assert_eq!(check_sync(false, 1, 1, false, 0), Err(FsError::OpNotSupported));
    assert_eq!(check_sync(true, 0, 1, false, 0), Err(FsError::InvalidParam));
    assert_eq!(check_sync(true, 65, 1, false, 0), Err(FsError::InvalidParam));
    assert_eq!(check_sync(true, 1, 1, true, 0), Err(FsError::InvalidParam));
    assert_eq!(check_sync(true, 64, 1, true, 1), Ok(()));
    assert_eq!(sync_deadline_us(-1), 0);
    assert_eq!(sync_deadline_us(2_000), 2);
    assert_eq!(sync_wait_result(SyncWait::Signaled(3)), Ok(3));
    assert!(sync_wait_result(SyncWait::Invalid).is_err());
    assert_eq!(driver_error(38), FsError::NotSupported);
    assert_eq!(driver_error(1), FsError::DeviceError);
    assert_eq!(sync_found(false), Err(FsError::EntryNotFound));
    let wait = SyncCommand::Wait { timeline: true, timeout_nsec: 5_000, flags: SYNC_WAIT_ALL };
    let q = SyncRequest { command: wait, count: 2, handles_ptr: 1, points_ptr: 0 };
    assert_eq!(
        sync(true, &q),
        Ok(SyncJob::Wait { with_points: false, all: true, deadline_us: 5 })
    );
    let create = SyncRequest { command: SyncCommand::Create { flags: 1 }, ..q };
    assert_eq!(sync(true, &create), Ok(SyncJob::Create { signaled: true }));
    assert_eq!(sync(false, &create), Err(FsError::OpNotSupported));
    let query = SyncRequest { command: SyncCommand::Query, ..q };
    assert_eq!(sync(true, &query), Err(FsError::InvalidParam));
    assert!(!waits_for_hardware(&card()));
}
