use palace_prop::bag_folder::{
    my_bag_path, outfits_path, shelves_dir, unix_bag_root, windows_bag_root, BagContext, BagRole,
};

fn context(root: &str, home: &str) -> BagContext {
    BagContext { bag_root: Some(root.to_string()), home: Some(home.to_string()) }
}

#[test]
fn classify_sorts_writable_files_shelves_and_protected_trees() {
    let ctx = context("/home/u/.local/share/org.palace.client/props", "/home/u");
    let root = "/home/u/.local/share/org.palace.client/props";
    assert_eq!(ctx.classify(&format!("{root}/My Bag.prp")), BagRole::MyBag);
    assert_eq!(ctx.classify(&format!("{root}/Outfits.prp")), BagRole::MyBag);
    assert_eq!(ctx.classify(&format!("{root}/shelves/Old.prp")), BagRole::Shelf);
    assert_eq!(
        ctx.classify("/home/u/.local/share/PalaceChat/PropBag.bundle/Test.pids"),
        BagRole::Forbidden
    );
    assert_eq!(ctx.classify("/home/u/.config/PalaceChat 5/PropBag.bundle"), BagRole::Forbidden);
    assert_eq!(ctx.classify("/home/u/.cache/PalaceChat/PropBag.bundle"), BagRole::Forbidden);
    assert_eq!(ctx.classify("/home/u/Pictures/Prop Files/Some.prp"), BagRole::Forbidden);
    assert_eq!(ctx.classify("/tmp/loose.prp"), BagRole::Forbidden);
    assert_eq!(ctx.classify(root), BagRole::Forbidden);
    assert_eq!(ctx.classify(&format!("{root}/Loose.prp")), BagRole::Forbidden);

    let trapped = context("/home/u/.local/share/PalaceChat/props", "/home/u");
    assert_eq!(
        trapped.classify("/home/u/.local/share/PalaceChat/props/My Bag.prp"),
        BagRole::Forbidden
    );
}

#[test]
fn classify_normalises_lexical_detours() {
    let ctx = context("/home/u/props", "/home/u");
    assert_eq!(ctx.classify("/home/u/props/shelves/../My Bag.prp"), BagRole::MyBag);
    assert_eq!(
        ctx.classify("/home/u/props/shelves/../../.local/share/PalaceChat/X.prp"),
        BagRole::Forbidden
    );
}

#[test]
fn classify_without_a_bag_root_is_always_forbidden() {
    let ctx = BagContext { bag_root: None, home: Some("/home/u".to_string()) };
    assert_eq!(ctx.classify("/home/u/props/My Bag.prp"), BagRole::Forbidden);
}

#[test]
fn the_unix_default_prefers_xdg_then_home() {
    assert_eq!(
        unix_bag_root(Some("/xdg"), Some("/home/u")),
        Some("/xdg/org.palace.client/props".to_string())
    );
    assert_eq!(
        unix_bag_root(None, Some("/home/u")),
        Some("/home/u/.local/share/org.palace.client/props".to_string())
    );
    assert_eq!(
        unix_bag_root(Some(""), Some("/home/u")),
        Some("/home/u/.local/share/org.palace.client/props".to_string()),
        "an empty XDG_DATA_HOME must fall through to HOME"
    );
    assert_eq!(unix_bag_root(None, None), None);
}

#[test]
fn the_windows_default_prefers_local_app_data_and_derives_from_profile() {
    let expected = Some("C:/Users/u/AppData/Local/org.palace.client/props".to_string());
    assert_eq!(
        windows_bag_root(
            Some("C:/Users/u/AppData/Local"),
            Some("C:/Users/u/AppData/Roaming"),
            Some("C:/Users/u")
        ),
        expected
    );
    assert_eq!(windows_bag_root(None, None, Some("C:/Users/u")), expected);
    assert_eq!(windows_bag_root(None, None, None), None);
}

#[test]
fn the_layout_helpers_point_directly_into_the_root() {
    assert_eq!(my_bag_path("/bags"), "/bags/My Bag.prp");
    assert_eq!(shelves_dir("/bags"), "/bags/shelves");
    assert_eq!(outfits_path("/bags"), "/bags/Outfits.prp");
}
