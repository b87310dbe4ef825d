use modbusaudio::clip_player::ClipPlayer;

#[test]
fn play_clip_only_registered_slots() {
    let mut player = ClipPlayer::new();
    assert!(!player.play_clip(3));
    player.add_clip(3, vec![1, 2, 3]);
    assert!(player.play_clip(3));
    assert!(!player.play_clip(4));
}

#[test]
fn callback_claims_pending_and_plays_through() {
    let mut player = ClipPlayer::new();
    player.add_clip(7, vec![10, 20, 30, 40, 50]);
    assert!(player.play_clip(7));
    // First pass: the queued clip becomes current, cursor reset.
    let (block, complete) = player.next_block(2);
    assert_eq!(block, vec![10, 20]);
    assert!(!complete);
    // Second pass: the cursor advanced.
    let (block, complete) = player.next_block(2);
    assert_eq!(block, vec![30, 40]);
    assert!(!complete);
    // Third pass: fewer samples remain than asked for; completion.
    let (block, complete) = player.next_block(2);
    assert_eq!(block, vec![50]);
    assert!(complete);
    // Past the end: nothing left, still complete.
    let (block, complete) = player.next_block(2);
    assert_eq!(block, Vec::<i16>::new());
    assert!(complete);
}

#[test]
fn new_pending_clip_preempts_current() {
    let mut player = ClipPlayer::new();
    player.add_clip(1, vec![1, 1, 1, 1]);
    player.add_clip(2, vec![2, 2]);
    assert!(player.play_clip(1));
    let (block, _) = player.next_block(2);
    assert_eq!(block, vec![1, 1]);
    // Queue a new clip mid-play: the next pass switches and restarts.
    assert!(player.play_clip(2));
    let (block, complete) = player.next_block(4);
    assert_eq!(block, vec![2, 2]);
    assert!(complete);
}

#[test]
fn replacing_a_clip_takes_effect() {
    let mut player = ClipPlayer::new();
    player.add_clip(1, vec![5]);
    player.add_clip(1, vec![6, 7]);
    assert!(player.play_clip(1));
    let (block, complete) = player.next_block(8);
    assert_eq!(block, vec![6, 7]);
    assert!(complete);
}

#[test]
fn empty_player_renders_nothing() {
    let mut player = ClipPlayer::new();
    let (block, complete) = player.next_block(4);
    assert_eq!(block, Vec::<i16>::new());
    // An empty current clip is already at its end.
    assert!(complete);
}
