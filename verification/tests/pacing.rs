use slime::pacing::Pacer;

#[test]
fn frame_is_shown_once_the_gap_has_passed() {
    let mut pacer = Pacer::new(60, 30);
    let shown: Vec<bool> = (0..7).map(|_| pacer.next_frame()).collect();
    assert_eq!(shown, vec![false, false, true, false, false, true, false]);
}

#[test]
fn every_tick_shows_a_frame_when_frames_outnumber_ticks() {
    let mut pacer = Pacer::new(30, 60);
    assert!(pacer.next_frame());
    assert!(pacer.next_frame());
}

#[test]
fn equal_rates_show_every_second_tick() {
    let mut pacer = Pacer::new(60, 60);
    let shown: Vec<bool> = (0..4).map(|_| pacer.next_frame()).collect();
    assert_eq!(shown, vec![false, true, false, true]);
}
