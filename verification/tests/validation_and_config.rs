//! Validation, configuration, numerals, login flows, and seat helpers.

use authgate::config::{split_origins, Config, ConfigError};
use authgate::login::AuthController;
use authgate::numerals::u64_to_string;
use authgate::respond::{build_auth_cookie, clear_auth_cookie, validate_sign_in};
use authgate::seats::{
    assign_seat_ids, count_message, missing_id, normalize_page, parse_id_list, parse_name_list,
    to_get_seats_response, to_seat_list_response, to_seat_response, BusRecord, CreateSeatInput,
    SeatRecord,
};
use authgate::seats::{validate_create, validate_update, SeatError};
use authgate::service::JWTServiceImpl;

#[test]
fn numerals_render_canonically() {
    assert_eq!(u64_to_string(0), "0");
    assert_eq!(u64_to_string(7), "7");
    assert_eq!(u64_to_string(1234567890), "1234567890");
    assert_eq!(u64_to_string(u64::MAX), "18446744073709551615");
}

#[test]
fn auth_cookie_has_the_documented_attributes() {
    assert_eq!(
        build_auth_cookie("tok", 3600),
        "auth_token=tok; Path=/; HttpOnly; SameSite=Lax; Max-Age=3600"
    );
    assert_eq!(
        clear_auth_cookie(),
        "auth_token=; Path=/; HttpOnly; SameSite=Lax; Max-Age=0"
    );
}

#[test]
fn sign_in_validation_messages() {
    assert_eq!(
        validate_sign_in("  ", "password1"),
        Err("Email and password are required".to_string())
    );
    assert_eq!(
        validate_sign_in("a@b", "password1"),
        Err("Email must be between 6 and 128 characters".to_string())
    );
    assert_eq!(
        validate_sign_in("nosign.example", "password1"),
        Err("Invalid email address".to_string())
    );
    assert_eq!(
        validate_sign_in("a@b.example", "short"),
        Err("Password must be between 8 and 2048 characters".to_string())
    );
    assert_eq!(validate_sign_in(" a@b.example ", "password1"), Ok(()));
}

#[test]
fn config_defaults_and_errors() {
    let c = Config::resolve(None, None, None, None, None, None, None).unwrap();
    assert_eq!(c.host, "0.0.0.0");
    assert_eq!(c.port, 8080);
    assert_eq!(c.jwt_secret, "key");
    assert_eq!(c.jwt_ttl, 3600);
    assert_eq!(c.cors_origin, "http://localhost:3000");
    assert_eq!(c.environment, "development");

    let bad_port = Config::resolve(None, Some("70000".to_string()), None, None, None, None, None);
    assert!(matches!(bad_port, Err(ConfigError::InvalidPort)));
    let bad_ttl = Config::resolve(
        None,
        Some("9090".to_string()),
        None,
        Some("soon".to_string()),
        None,
        None,
        None,
    );
    assert!(matches!(bad_ttl, Err(ConfigError::InvalidJwtTtl)));

    let c2 = Config::resolve(
        Some("127.0.0.1".to_string()),
        Some("9090".to_string()),
        Some("test-secret".to_string()),
        Some("60".to_string()),
        None,
        None,
        Some("production".to_string()),
    )
    .unwrap();
    assert_eq!(c2.port, 9090);
    assert_eq!(c2.jwt_ttl, 60);
    assert_eq!(c2.environment, "production");
}

#[test]
fn origins_are_split_trimmed_and_filtered() {
    let v = split_origins(" https://a.example , ,https://b.example");
    assert_eq!(
        v,
        vec!["https://a.example".to_string(), "https://b.example".to_string()]
    );
    assert!(split_origins("  ").is_empty());
}

#[test]
fn login_flows_accept_only_the_development_account() {
    let config = Config::resolve(None, None, None, None, None, None, None).unwrap();
    let svc = JWTServiceImpl::new(config.jwt_secret.clone());
    let ctl = AuthController::new(config, svc);
    assert!(ctl.login_jwt("admin", "admin").is_ok());
    assert!(ctl.login_jwt("admin", "nope").is_err());
    let (cookie, resp) = ctl.login_cookie("admin", "admin").unwrap();
    assert_eq!(resp.status, "ok");
    assert!(cookie.set_cookie.starts_with("auth_token="));
    let (clear, out) = ctl.logout();
    assert_eq!(out.status, "ok");
    assert!(clear.set_cookie.contains("Max-Age=0"));
}

#[test]
fn heath_response_names_the_service() {
    let h = authgate::login::heath_response();
    assert_eq!(h.status, "ok");
    assert_eq!(h.service, "rust-api-server");
}

#[test]
fn paging_is_normalized() {
    assert_eq!(normalize_page(-5, 0), (0, 10));
    assert_eq!(normalize_page(20, 50), (20, 50));
}

#[test]
fn id_and_name_lists_parse_like_the_query_strings() {
    assert_eq!(parse_id_list(Some("1, 2 ,x, -3")), vec![1, 2, -3]);
    assert_eq!(parse_id_list(None), Vec::<i32>::new());
    assert_eq!(
        parse_name_list(Some(" A1 ,, B2 ")),
        vec!["A1".to_string(), "B2".to_string()]
    );
}

#[test]
fn seat_rows_map_to_responses() {
    let seat = SeatRecord {
        seat_id: 1,
        bus_id: 2,
        price: 30,
        deleted: false,
        name: "A1".to_string(),
    };
    let bus = BusRecord {
        bus_id: 2,
        name: Some("Express".to_string()),
        license_plate: "XYZ-1".to_string(),
        deleted: false,
    };
    let resp = to_seat_response(&seat, Some(&bus));
    assert_eq!(resp.seat_id, 1);
    assert_eq!(resp.bus.as_ref().unwrap().license_plate, "XYZ-1");

    let page = to_get_seats_response(&vec![(seat, Some(bus))], 1, 0, 10);
    assert_eq!(page.total, 1);
    assert_eq!(page.size, 10);
    assert_eq!(page.data.len(), 1);

    let listed = to_seat_list_response(&vec![], "No seats to create".to_string());
    assert_eq!(listed.message, "No seats to create");
    assert!(listed.data.is_empty());
}

#[test]
fn creation_assigns_sequential_ids_after_the_maximum() {
    let inputs = vec![
        CreateSeatInput { bus_id: 1, price: 10, name: "A1".to_string() },
        CreateSeatInput { bus_id: 1, price: 10, name: "A2".to_string() },
    ];
    let rows = assign_seat_ids(&inputs, 7);
    assert_eq!(rows[0].seat_id, 8);
    assert_eq!(rows[1].seat_id, 9);
    assert!(!rows[0].deleted);
    assert_eq!(rows[1].name, "A2");
}

#[test]
fn missing_id_reports_the_first_absent_one() {
    assert_eq!(missing_id(&vec![1, 2, 3], &vec![1, 3]), Some(2));
    assert_eq!(missing_id(&vec![1, 3], &vec![1, 2, 3]), None);
}

#[test]
fn count_messages_use_the_seat_wording() {
    assert_eq!(count_message("Created", 2), "Created 2 seat(s)");
    assert_eq!(count_message("Deleted", 0), "Deleted 0 seat(s)");
}

#[test]
fn write_validation_reports_the_missing_rows() {
    assert!(validate_create(&vec![1, 2], &vec![1, 2, 3]).is_ok());
    assert!(matches!(
        validate_create(&vec![1, 9], &vec![1, 2]),
        Err(SeatError::BusNotFound(9))
    ));
    assert!(validate_update(&vec![5], &vec![5], &vec![1], &vec![1]).is_ok());
    // a missing seat is reported before a missing bus
    assert!(matches!(
        validate_update(&vec![5], &vec![], &vec![9], &vec![]),
        Err(SeatError::SeatNotFound(5))
    ));
    assert!(matches!(
        validate_update(&vec![5], &vec![5], &vec![9], &vec![]),
        Err(SeatError::BusNotFound(9))
    ));
}

#[test]
fn seat_error_messages_name_the_row() {
    assert_eq!(
        SeatError::BusNotFound(4).message(),
        "Bus with id 4 does not exist"
    );
    assert_eq!(
        SeatError::SeatNotFound(-2).message(),
        "Seat with id -2 does not exist"
    );
    assert_eq!(SeatError::Db("boom".to_string()).message(), "boom");
}
