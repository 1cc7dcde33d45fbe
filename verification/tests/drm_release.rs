use linux_object::drm::{
    gem_close, release_process, take_freed, DriverInfo, DrmFramebuffer, DrmState, GemEntry,
    GemHandle,
};

fn plant(st: &mut DrmState, id: u32, size: usize, pid: u64) {
    let handle = GemHandle { id, size, phys_addr: 0 };
    st.handles.push(GemEntry { handle, owner: pid });
}

fn live_ids(st: &DrmState) -> Vec<u32> {
    st.handles.iter().map(|e| e.handle.id).collect()
}

#[test]
fn process_exit_releases_only_that_process_buffers() {
    let mut st = DrmState::new(None);
    plant(&mut st, 9001, 4096, 77_001);
    plant(&mut st, 9002, 8192, 77_001);
    plant(&mut st, 9003, 4096, 77_002);

    assert_eq!(release_process(&mut st, 77_001), 2);

    let ids = live_ids(&st);
    assert!(!ids.contains(&9001), "9001 should be gone with its owner");
    assert!(!ids.contains(&9002), "9002 should be gone with its owner");
    assert!(ids.contains(&9003), "another process's buffer must survive");

    assert_eq!(release_process(&mut st, 77_001), 0);

    assert_eq!(release_process(&mut st, 77_002), 1);
    assert!(!live_ids(&st).contains(&9003));
}

#[test]
fn unowned_buffers_are_never_reclaimed() {
    let mut st = DrmState::new(None);
    plant(&mut st, 9101, 4096, 0);
    assert_eq!(release_process(&mut st, 0), 0);
    assert!(live_ids(&st).contains(&9101));
}

#[test]
fn releasing_a_buffer_drops_the_framebuffer_built_on_it() {
    let mut st = DrmState::new(None);
    plant(&mut st, 9201, 4096, 77_003);
    st.framebuffers.push(DrmFramebuffer {
        id: 9299,
        driver_fb_id: None,
        gem_handle_id: 9201,
        width: 1,
        height: 1,
        pitch: 4,
        phys_addr: 0,
        size: 4096,
    });
    st.crtc_fb = 9299;
    assert_eq!(release_process(&mut st, 77_003), 1);
    assert!(
        !st.framebuffers.iter().any(|fb| fb.id == 9299),
        "a framebuffer over a freed handle would scan out released memory"
    );
    assert_eq!(st.crtc_fb, 0, "the CRTC must not point at a dropped fb");
}

#[test]
fn the_driver_is_told_of_buffers_that_are_gone() {
    let mut st = DrmState::new(None);
    st.drivers.push(DriverInfo { simplefb: false, hardware_kms: false });
    plant(&mut st, 1, 4096, 5);
    plant(&mut st, 2, 8192, 6);
    assert!(gem_close(&mut st, 1));
    assert!(!gem_close(&mut st, 1));
    assert_eq!(release_process(&mut st, 6), 1);
    let ids: Vec<u32> = take_freed(&mut st).iter().map(|h| h.id).collect();
    assert_eq!(ids, vec![1, 2]);
    assert!(take_freed(&mut st).is_empty());
}
