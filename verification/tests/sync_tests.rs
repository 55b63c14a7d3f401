use autofy::songs::PlayableId;
use autofy::sync::{
    into_batches, is_sync_target, is_up_to_date, plan_sync, songs_to_add, sync_title, ExistingPlaylist,
    SyncPlan, ADD_BATCH_SIZE, PREFIX,
};

fn track(id: &str) -> PlayableId {
    PlayableId::Track(id.to_string())
}

fn tracks(n: usize) -> Vec<PlayableId> {
    (0..n).map(|i| track(&i.to_string())).collect()
}

#[test]
fn sync_title_puts_the_prefix_first() {
    assert_eq!(PREFIX, "Autofy");
    assert_eq!(sync_title("it works"), "Autofy it works");
    assert_eq!(sync_title(""), "Autofy ");
}

#[test]
fn is_sync_target_matches_only_the_full_title() {
    assert!(is_sync_target("Autofy Chill", "Chill"));
    assert!(!is_sync_target("Chill", "Chill"));
    assert!(!is_sync_target("Autofy Chill ", "Chill"));
    assert!(!is_sync_target("autofy Chill", "Chill"));
}

#[test]
fn is_up_to_date_needs_total_and_every_song() {
    let songs = vec![track("a"), track("b")];
    assert!(is_up_to_date(2, &songs, &vec![track("b"), track("a")]));
    assert!(!is_up_to_date(3, &songs, &vec![track("b"), track("a"), track("c")]));
    assert!(!is_up_to_date(2, &songs, &vec![track("a"), track("c")]));
    assert!(is_up_to_date(0, &Vec::new(), &Vec::new()));
}

#[test]
fn songs_to_add_keeps_missing_songs_in_order() {
    let songs = vec![track("a"), track("b"), track("c"), track("d")];
    let present = vec![track("c"), track("a")];
    assert_eq!(songs_to_add(&songs, &present), vec![track("b"), track("d")]);
    assert_eq!(songs_to_add(&songs, &Vec::new()), songs);
}

#[test]
fn into_batches_of_nothing_is_one_empty_batch() {
    let batches = into_batches(&Vec::new(), ADD_BATCH_SIZE);
    assert_eq!(batches, vec![Vec::<PlayableId>::new()]);
}

#[test]
fn into_batches_cuts_in_hundreds() {
    assert_eq!(ADD_BATCH_SIZE, 100);
    let items = tracks(250);
    let batches = into_batches(&items, ADD_BATCH_SIZE);
    assert_eq!(batches.iter().map(|b| b.len()).collect::<Vec<_>>(), vec![100, 100, 50]);
    assert_eq!(batches.concat(), items);
    assert_eq!(into_batches(&tracks(100), 100).len(), 1);
    assert_eq!(into_batches(&tracks(101), 100).iter().map(|b| b.len()).collect::<Vec<_>>(), vec![100, 1]);
    assert_eq!(into_batches(&tracks(5), 2).iter().map(|b| b.len()).collect::<Vec<_>>(), vec![2, 2, 1]);
}

#[test]
fn plan_without_playlist_creates_it_with_every_song() {
    let songs = vec![track("a"), track("b")];
    assert_eq!(plan_sync(&songs, &None), SyncPlan::Create { batches: vec![songs.clone()] });
    assert_eq!(plan_sync(&Vec::new(), &None), SyncPlan::Create { batches: vec![Vec::new()] });
}

#[test]
fn plan_with_up_to_date_playlist_does_nothing() {
    let songs = vec![track("a"), track("b")];
    let existing = ExistingPlaylist { total: 2, items: vec![track("b"), track("a")] };
    assert_eq!(plan_sync(&songs, &Some(existing)), SyncPlan::UpToDate);
}

#[test]
fn plan_with_stale_playlist_adds_what_is_missing() {
    let songs = vec![track("a"), track("b"), track("c")];
    let existing = ExistingPlaylist { total: 2, items: vec![track("b"), track("z")] };
    assert_eq!(
        plan_sync(&songs, &Some(existing)),
        SyncPlan::Extend { batches: vec![vec![track("a"), track("c")]] }
    );
    let wrong_total = ExistingPlaylist { total: 5, items: vec![track("a"), track("b"), track("c")] };
    assert_eq!(plan_sync(&songs, &Some(wrong_total)), SyncPlan::Extend { batches: vec![Vec::new()] });
}

#[test]
fn plan_after_carrying_it_out_covers_all_songs() {
    let songs = tracks(230);
    let existing = ExistingPlaylist { total: 10, items: tracks(10) };
    match plan_sync(&songs, &Some(existing.clone())) {
        SyncPlan::Extend { batches } => {
            assert_eq!(batches.iter().map(|b| b.len()).collect::<Vec<_>>(), vec![100, 100, 20]);
            let mut held = existing.items.clone();
            held.extend(batches.concat());
            for s in &songs {
                assert!(held.contains(s));
            }
            assert_eq!(held.len(), songs.len());
        }
        other => panic!("unexpected plan {:?}", other),
    }
}

#[test]
fn planning_again_after_creating_finds_it_up_to_date() {
    let songs = tracks(120);
    let created = match plan_sync(&songs, &None) {
        SyncPlan::Create { batches } => batches.concat(),
        other => panic!("unexpected plan {:?}", other),
    };
    let existing = ExistingPlaylist { total: created.len() as u32, items: created };
    assert_eq!(plan_sync(&songs, &Some(existing)), SyncPlan::UpToDate);
}

#[test]
fn planning_again_after_extending_finds_it_up_to_date() {
    let songs = tracks(7);
    let items = vec![track("5"), track("1")];
    let existing = ExistingPlaylist { total: 2, items: items.clone() };
    let added = match plan_sync(&songs, &Some(existing)) {
        SyncPlan::Extend { batches } => batches.concat(),
        other => panic!("unexpected plan {:?}", other),
    };
    let mut held = items;
    held.extend(added);
    let again = ExistingPlaylist { total: held.len() as u32, items: held };
    assert_eq!(plan_sync(&songs, &Some(again)), SyncPlan::UpToDate);
}

#[test]
fn different_names_give_different_titles() {
    assert_ne!(sync_title("a b"), sync_title("a  b"));
    assert!(!is_sync_target(&sync_title("Mix"), "Mix 2"));
    assert!(is_sync_target(&sync_title("Mix 2"), "Mix 2"));
}
