use beacn_utility::icon::{checked_icon, load_icon_iced, IconError, Pixels};
use beacn_utility::paths::{
    application_id, get_autostart_file, get_cache_path, get_config_path, get_data_path,
    get_logs_path, get_socket_file_name, get_socket_file_path, get_socket_name, has_autostart,
    AutostartError, Migration, SocketName,
};

#[test]
fn data_is_migrated_once() {
    let plan = get_data_path(true, false);
    assert_eq!(plan.name, "beacn-utility");
    assert_eq!(plan.old_name, "io.github.beacn_on_linux");
    assert_eq!(plan.migration, Migration::Move);
    assert_eq!(get_data_path(true, true).migration, Migration::RemoveOld);
    assert_eq!(get_data_path(false, true).migration, Migration::Nothing);
    assert_eq!(get_data_path(false, false).migration, Migration::Nothing);
}

#[test]
fn directories_have_these_names() {
    assert_eq!(get_logs_path(), vec!["beacn-utility", "logs"]);
    assert_eq!(get_config_path(), "beacn-utility");
    assert_eq!(get_cache_path(), "beacn-utility");
    assert_eq!(get_socket_file_name(), "beacn-utility.socket");
    assert_eq!(
        get_socket_file_path(),
        vec!["beacn-utility", "beacn-utility.socket"]
    );
    assert_eq!(application_id(), "io.github.beacn_on_linux.beacn-utility");
}

#[test]
fn autostart_file_is_migrated_on_linux() {
    let file = get_autostart_file(true, true, false).unwrap();
    assert_eq!(
        file.path,
        vec!["autostart", "io.github.beacn_on_linux.beacn-utility.desktop"]
    );
    assert_eq!(
        file.legacy_path,
        vec!["autostart", "io.github.beacn_on_linux.desktop"]
    );
    assert_eq!(file.migration, Migration::Move);
    let migration = |legacy, current| get_autostart_file(true, legacy, current).unwrap().migration;
    assert_eq!(migration(true, true), Migration::RemoveOld);
    assert_eq!(migration(false, true), Migration::Nothing);
}

#[test]
fn autostart_is_not_supported_elsewhere() {
    let e = get_autostart_file(false, true, true).unwrap_err();
    assert_eq!(e, AutostartError::Unsupported);
    assert_eq!(e.message(), "Autostart is not supported on this platform");
    assert_eq!(has_autostart(false, true, true), Err(AutostartError::Unsupported));
}

#[test]
fn autostart_is_on_under_either_name() {
    assert_eq!(has_autostart(true, false, false), Ok(false));
    assert_eq!(has_autostart(true, true, false), Ok(true));
    assert_eq!(has_autostart(true, false, true), Ok(true));
    assert_eq!(has_autostart(true, true, true), Ok(true));
}

#[test]
fn icon_is_decoded_to_four_bytes_a_pixel() {
    let pixels: Vec<u8> = vec![10, 20, 30, 40, 50, 60];
    let image = image::RgbImage::from_raw(2, 1, pixels).unwrap();
    let mut file = std::io::Cursor::new(Vec::new());
    image::DynamicImage::ImageRgb8(image)
        .write_to(&mut file, image::ImageFormat::Png)
        .unwrap();
    let icon = load_icon_iced(file.get_ref()).unwrap();
    assert_eq!((icon.width, icon.height), (2, 1));
    assert_eq!(icon.rgba, vec![10, 20, 30, 255, 40, 50, 60, 255]);
}

#[test]
fn bytes_that_are_no_image_make_no_icon() {
    assert_eq!(load_icon_iced(b"not an image").unwrap_err(), IconError::Undecodable);
    assert_eq!(load_icon_iced(b"").unwrap_err(), IconError::Undecodable);
}

#[test]
fn pixels_have_to_fill_the_icon() {
    let make = |width, height, count: usize| {
        checked_icon(Pixels {
            width,
            height,
            rgba: vec![7; count],
        })
    };
    assert_eq!(make(2, 2, 16).unwrap().rgba.len(), 16);
    assert_eq!(make(2, 2, 15).unwrap_err(), IconError::PartOfPixel);
    assert_eq!(make(2, 2, 12).unwrap_err(), IconError::WrongPixelCount);
    assert_eq!(make(65536, 65536, 0).unwrap_err(), IconError::WrongPixelCount);
}

#[test]
fn socket_has_a_name_or_a_file() {
    match get_socket_name(true) {
        SocketName::Namespaced(name) => assert_eq!(name, "beacn-utility.socket"),
        SocketName::File(path) => panic!("{path:?}"),
    }
    match get_socket_name(false) {
        SocketName::File(path) => assert_eq!(path, vec!["beacn-utility", "beacn-utility.socket"]),
        SocketName::Namespaced(name) => panic!("{name}"),
    }
}
