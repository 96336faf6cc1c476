use win_widgets::manifest::{Manifest, WidgetConfig};
use win_widgets::widgets::{
    classify_widget_address, normalize_widget_url, reload_plan, resolve_widget_address,
    startup_launches, widget_page_address, LaunchRequest, WidgetAddress,
};

fn widget(id: &str, enabled: bool) -> WidgetConfig {
    WidgetConfig {
        id: id.to_string(),
        window_label: format!("label-{}", id),
        enabled,
        width_bits: 1,
        height_bits: 2,
        x_bits: 3,
        y_bits: 4,
        interactive: true,
        settings: Vec::new(),
    }
}

#[test]
fn page_address() {
    assert_eq!(widget_page_address("me/clock"), "widget://localhost/me/clock/index.html");
}

#[test]
fn startup_opens_enabled_widgets_in_order() {
    let m = Manifest { widgets: vec![widget("a", true), widget("b", false), widget("c", true)] };
    let launches = startup_launches(&m);
    assert_eq!(
        launches,
        vec![
            LaunchRequest {
                label: "label-a".to_string(),
                url: "widget://localhost/a/index.html".to_string(),
                x_bits: 3,
                y_bits: 4,
                width_bits: 1,
                height_bits: 2,
                interactive: true,
            },
            LaunchRequest {
                label: "label-c".to_string(),
                url: "widget://localhost/c/index.html".to_string(),
                x_bits: 3,
                y_bits: 4,
                width_bits: 1,
                height_bits: 2,
                interactive: true,
            },
        ]
    );
}

#[test]
fn reload_plans() {
    let p = reload_plan(&widget("a", false), true);
    assert!(p.close_window && !p.wait_after_close && p.launch.is_none());
    let p = reload_plan(&widget("a", false), false);
    assert!(!p.close_window && p.launch.is_none());
    let p = reload_plan(&widget("a", true), true);
    assert!(p.close_window && p.wait_after_close);
    assert_eq!(p.launch.unwrap().url, "widget://localhost/a/index.html");
    let p = reload_plan(&widget("a", true), false);
    assert!(!p.close_window && !p.wait_after_close && p.launch.is_some());
}

#[test]
fn addresses_are_normalised() {
    assert_eq!(normalize_widget_url("clock\\index.html"), "widget://localhost/clock/index.html");
    assert_eq!(normalize_widget_url("https://example.com/a\\b"), "https://example.com/a\\b");
    assert_eq!(normalize_widget_url("file:///C:/w"), "file:///C:/w");
    assert_eq!(normalize_widget_url("file://x"), "widget://localhost/file://x");
}

#[test]
fn addresses_are_classified() {
    assert_eq!(
        resolve_widget_address("w", "widget://localhost/clock/index.html", false),
        Ok(WidgetAddress::CustomProtocol("widget://localhost/clock/index.html".to_string()))
    );
    assert_eq!(
        resolve_widget_address("w", "https://example.com", false),
        Ok(WidgetAddress::External("https://example.com".to_string()))
    );
    assert_eq!(
        resolve_widget_address("w", "asset://localhost/x", false),
        Ok(WidgetAddress::CustomProtocol("asset://localhost/x".to_string()))
    );
    assert_eq!(
        resolve_widget_address("w", "clock/index.html", false),
        Ok(WidgetAddress::CustomProtocol("widget://localhost/clock/index.html".to_string()))
    );
}

#[test]
fn existing_window_is_refused() {
    assert_eq!(
        resolve_widget_address("w", "https://example.com", true),
        Err("Widget 'w' already exists".to_string())
    );
}

#[test]
fn invalid_address_is_reported() {
    let expected = "http://".parse::<url::Url>().unwrap_err().to_string();
    assert_eq!(
        resolve_widget_address("w", "http://", false),
        Err(format!("Invalid widget URL 'http://': {}", expected))
    );
}

#[test]
fn unsupported_scheme_is_reported() {
    assert_eq!(
        classify_widget_address("w", "ftp://x".to_string(), false, Ok("ftp".to_string())),
        Err("Unsupported widget URL scheme: ftp".to_string())
    );
    assert_eq!(
        classify_widget_address("w", "file:///x".to_string(), false, Ok("file".to_string())),
        Ok(WidgetAddress::External("file:///x".to_string()))
    );
}

#[test]
fn normalised_address_never_has_an_unsupported_scheme() {
    assert_eq!(
        resolve_widget_address("w", "mailto:someone", false),
        Ok(WidgetAddress::CustomProtocol("widget://localhost/mailto:someone".to_string()))
    );
    assert_eq!(
        resolve_widget_address("w", "file:///C:/w/index.html", false),
        Ok(WidgetAddress::External("file:///C:/w/index.html".to_string()))
    );
    assert_eq!(
        resolve_widget_address("w", "HTTP://example.com", false),
        Ok(WidgetAddress::CustomProtocol("widget://localhost/HTTP://example.com".to_string()))
    );
}
