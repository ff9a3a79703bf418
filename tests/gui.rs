use spectral::gui::{App, Dongle, RtlSdr};

#[test]
fn default_app() {
    let app = App::default();
    assert_eq!(app.app_name, "SDR");
    assert!(!app.connection_status);
    assert_eq!(app.status_label(), "connected: false");
}

#[test]
fn connect_button_toggles() {
    let mut app = App::default();
    app.toggle_connection();
    assert!(app.connection_status);
    assert_eq!(app.status_label(), "connected: true");
    app.toggle_connection();
    assert!(!app.connection_status);
}

#[test]
fn rtlsdr_opens_and_closes() {
    assert_eq!(RtlSdr::open(), Ok(()));
    assert_eq!(RtlSdr::close(), Ok(()));
}
