use lib::environment::app_picker::{app_list, bytes_less, is_app_bundle_extension, listing_order, str_equal, AppScan};

#[test]
fn app_extensions() {
    assert!(is_app_bundle_extension(Some("app")));
    assert!(is_app_bundle_extension(Some("ipa")));
    assert!(!is_app_bundle_extension(Some("APP")));
    assert!(!is_app_bundle_extension(Some("zip")));
    assert!(!is_app_bundle_extension(Some("")));
    assert!(!is_app_bundle_extension(None));
    assert!(str_equal("ñ", "ñ"));
    assert!(!str_equal("a", "ab"));
}

#[test]
fn apps_listed_by_upper_case_name_stably() {
    let names: Vec<String> = ["b", "A", "a", "B"].iter().map(|s| s.to_string()).collect();
    assert_eq!(listing_order(&names), vec![1, 2, 0, 3]);
    let names: Vec<String> = ["st", "ß"].iter().map(|s| s.to_string()).collect();
    assert_eq!(listing_order(&names), vec![1, 0]);
    let names: Vec<String> = ["Zoo", "talking tom", "Ángel", "Talking Tom"].iter().map(|s| s.to_string()).collect();
    assert_eq!(listing_order(&names), vec![1, 3, 0, 2]);
    assert_eq!(listing_order(&Vec::new()), Vec::<usize>::new());
}

#[test]
fn byte_order() {
    assert!(bytes_less(b"", b"a"));
    assert!(!bytes_less(b"a", b""));
    assert!(bytes_less(b"ab", b"b"));
    assert!(bytes_less(b"ab", b"abc"));
    assert!(!bytes_less(b"abc", b"abc"));
    assert!(!bytes_less(b"\xc3", b"z"));
}

#[test]
fn messages_when_there_is_nothing_to_pick() {
    let dir = "/data/apps";
    assert_eq!(
        app_list::<u8>(dir, AppScan::NoDirectory).unwrap_err(),
        "🔥 ¡Ojo bro! No existe la carpeta /data/apps. Creala e inyectale tus .ipa/.app de Talking Friends."
    );
    assert_eq!(
        app_list::<u8>(dir, AppScan::Failed("Permission denied".to_string())).unwrap_err(),
        "Error escaneando /data/apps: Permission denied."
    );
    assert_eq!(
        app_list::<u8>(dir, AppScan::Found(vec![])).unwrap_err(),
        "💀 No hay apps ni juegos en /data/apps. ¡Meté unos binarios ahí!"
    );
    assert_eq!(app_list(dir, AppScan::Found(vec![3u8, 1])).unwrap(), vec![3, 1]);
}
