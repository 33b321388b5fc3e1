use swupdate_httpd::boundary::{
    accept, answer, respond, CatalogError, Response, Status, UpdateRequest,
};
use swupdate_httpd::filename::FilenameFieldLayout;
use swupdate_httpd::resolve::{Outcome, Request};

fn layout() -> FilenameFieldLayout {
    FilenameFieldLayout {
        separator: "_".to_string(),
        image_field_index: 0,
        device_field_index: 1,
        version_field_index: 2,
    }
}

fn full() -> UpdateRequest {
    UpdateRequest {
        image: Some("app".to_string()),
        device: Some("deviceA".to_string()),
        current_version: Some("1.0.0".to_string()),
    }
}

fn bad_request() -> Response {
    Response { status: Status::BadRequest, header: None }
}

#[test]
fn complete_request_is_taken_up() {
    assert_eq!(
        accept(&full()),
        Ok(Request {
            image: "app".to_string(),
            device: "deviceA".to_string(),
            current_version: "1.0.0".to_string(),
        })
    );
}

#[test]
fn empty_parameters_are_present_parameters() {
    let request = UpdateRequest {
        image: Some(String::new()),
        device: Some(String::new()),
        current_version: Some(String::new()),
    };
    assert!(accept(&request).is_ok());
}

#[test]
fn missing_image_is_a_bad_request() {
    let mut request = full();
    request.image = None;
    assert_eq!(accept(&request), Err(bad_request()));
}

#[test]
fn missing_device_is_a_bad_request() {
    let mut request = full();
    request.device = None;
    assert_eq!(accept(&request), Err(bad_request()));
}

#[test]
fn missing_version_is_a_bad_request() {
    let mut request = full();
    request.current_version = None;
    assert_eq!(accept(&request), Err(bad_request()));
}

#[test]
fn missing_everything_is_a_bad_request() {
    let request = UpdateRequest { image: None, device: None, current_version: None };
    assert_eq!(accept(&request), Err(bad_request()));
}

#[test]
fn status_codes() {
    assert_eq!(Status::Found.code(), 302);
    assert_eq!(Status::BadRequest.code(), 400);
    assert_eq!(Status::NotFound.code(), 404);
    assert_eq!(Status::InternalServerError.code(), 500);
}

#[test]
fn update_redirects_to_the_image() {
    let got = respond(&Outcome::UpdateAvailable("app_deviceA_1.1.0.bin".to_string()));
    assert_eq!(
        got,
        Response {
            status: Status::Found,
            header: Some(("Location".to_string(), "/images/app_deviceA_1.1.0.bin".to_string())),
        }
    );
}

#[test]
fn no_update_is_not_found() {
    assert_eq!(
        respond(&Outcome::NoUpdateAvailable),
        Response { status: Status::NotFound, header: None }
    );
}

#[test]
fn ambiguity_is_a_server_error_that_says_so() {
    let got = respond(&Outcome::AmbiguousCatalog(vec!["a.bin".to_string(), "b.bin".to_string()]));
    assert_eq!(
        got,
        Response {
            status: Status::InternalServerError,
            header: Some((
                "X-Error".to_string(),
                "More than one matching update image.".to_string()
            )),
        }
    );
}

#[test]
fn unreachable_catalog_is_a_server_error() {
    let request = accept(&full()).unwrap();
    let got = answer(&request, &Err(CatalogError::Unreachable), &layout());
    assert_eq!(got, Response { status: Status::InternalServerError, header: None });
}

#[test]
fn answer_resolves_and_responds() {
    let request = accept(&full()).unwrap();
    let listing = Ok(vec!["app_deviceA_1.1.0.bin".to_string(), "junk".to_string()]);
    let got = answer(&request, &listing, &layout());
    assert_eq!(got.status.code(), 302);
    assert_eq!(
        got.header,
        Some(("Location".to_string(), "/images/app_deviceA_1.1.0.bin".to_string()))
    );
    let listing = Ok(vec!["app_deviceA_1.0.0.bin".to_string()]);
    assert_eq!(answer(&request, &listing, &layout()).status, Status::NotFound);
    let listing =
        Ok(vec!["app_deviceA_1.0.0.bin".to_string(), "app_deviceA_1.1.0.bin".to_string()]);
    assert_eq!(answer(&request, &listing, &layout()).status, Status::InternalServerError);
}
