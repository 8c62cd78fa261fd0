use palace_prop::bag_folder::BagRole;
use palace_prop::collection_order::{collection_list, shelf_files};
use palace_prop::editor::tools::playback::PlaybackMode;
use palace_prop::editor::tools::transform::{rotate_180, rotate_cw};
use palace_prop::image::PropImage;

fn texts(xs: &[&str]) -> Vec<String> {
    xs.iter().map(|s| s.to_string()).collect()
}

#[test]
fn collections_list_my_bag_first_then_shelves_by_name() {
    let shelves = texts(&["/b/shelves/zeta.prp", "/b/shelves/notes.txt", "/b/shelves/Alpha.PRP", "/b/shelves/alpha.prp", "/b/shelves/Beta.prp"]);
    let list = collection_list("/b/My Bag.prp", false, &shelves);
    let names: Vec<&str> = list.iter().map(|c| c.name.as_str()).collect();
    assert_eq!(names, vec!["My Bag", "Alpha", "alpha", "Beta", "zeta"]);
    assert_eq!(list[0].role, BagRole::MyBag);
    assert!(!list[0].exists);
    assert!(list[1..].iter().all(|c| c.role == BagRole::Shelf && c.exists));
}

#[test]
fn shelf_files_keep_only_prp_files_in_name_order() {
    let files = shelf_files(&texts(&["/s/b.prp", "/s/A.prp", "/s/x.txt", "/s/a.prp"]));
    assert_eq!(files, texts(&["/s/A.prp", "/s/a.prp", "/s/b.prp"]));
}

#[test]
fn ping_pong_accepts_the_largest_count_whose_period_fits() {
    let n = (u64::MAX / 2 + 1) as usize;
    assert_eq!(PlaybackMode::PingPong.frame_at(n, 5), Some(5));
    assert_eq!(PlaybackMode::PingPong.frame_at(3, 3), Some(1));
    assert_eq!(PlaybackMode::PingPong.frame_at(3, 4), Some(0));
}

#[test]
fn four_quarter_turns_give_the_image_back() {
    let rgba: Vec<u8> = (0..2 * 3 * 4).map(|v| v as u8).collect();
    let img = PropImage::from_rgba(2, 3, rgba).unwrap();
    let once = rotate_cw(&img).unwrap();
    let twice = rotate_cw(&once).unwrap();
    assert_eq!(twice.as_rgba(), rotate_180(&img).unwrap().as_rgba());
    let four = rotate_cw(&rotate_cw(&twice).unwrap()).unwrap();
    assert_eq!(four.as_rgba(), img.as_rgba());
    assert_eq!((four.width(), four.height()), (2, 3));
}
