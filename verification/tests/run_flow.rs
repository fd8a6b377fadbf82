use xkcd_term::flow::{
    comic_info_url, image_file_path, render_plan, start_run, step, Action, Event, Phase,
};
use xkcd_term::select::random_comic_id;
use xkcd_term::MAX_COMIC_ID;

#[test]
fn selector_stays_in_range() {
    for _ in 0..10_000 {
        let id = random_comic_id();
        assert!(1 <= id && id <= MAX_COMIC_ID);
        assert!(id <= 2692);
    }
}

#[test]
fn metadata_url_for_identifier() {
    assert_eq!(comic_info_url(353), "https://xkcd.com/353/info.0.json");
    assert_eq!(comic_info_url(1), "https://xkcd.com/1/info.0.json");
    assert_eq!(comic_info_url(2692), "https://xkcd.com/2692/info.0.json");
}

#[test]
fn filename_derivation() {
    let p = image_file_path("https://imgs.xkcd.com/comics/example_name.png");
    assert_eq!(p, Some(String::from("data/example_name.png")));
}

#[test]
fn filename_needs_a_slash() {
    assert_eq!(image_file_path("no-separator-here.png"), None);
    assert_eq!(image_file_path(""), None);
    assert_eq!(image_file_path("ends/with/"), Some(String::from("data/")));
}

#[test]
fn parse_failure_skips_rest_and_exits_clean() {
    let (phase, action) = start_run(77);
    assert!(matches!(phase, Phase::AwaitingMetadata));
    match &action {
        Action::FetchMetadata { url } => assert_eq!(url, "https://xkcd.com/77/info.0.json"),
        _ => panic!("the run must begin with the metadata fetch"),
    }
    let body = String::from("{\"error\":\"not found\"}");
    let (phase, action) = step(phase, Event::MetadataFetched { body: Some(body) });
    match action {
        Action::Finish { exit_code } => assert_eq!(exit_code, 0),
        _ => panic!("a body naming no comic must end the run with nothing downloaded"),
    }
    assert!(matches!(phase, Phase::Finished { exit_code: 0 }));
}

#[test]
fn transport_failure_is_fatal() {
    let (phase, _) = start_run(42);
    let (phase, action) = step(phase, Event::MetadataFetched { body: None });
    match action {
        Action::Finish { exit_code } => assert_ne!(exit_code, 0),
        _ => panic!("a transport failure must abort the run"),
    }
    assert!(matches!(phase, Phase::Finished { exit_code: 1 }));
}

#[test]
fn failed_download_and_failed_render_are_fatal() {
    let phase = Phase::AwaitingImage { path: String::from("data/a.png") };
    let (phase2, action) = step(phase, Event::ImageSaved { ok: false });
    assert!(matches!(action, Action::Finish { exit_code: 1 }));
    assert!(matches!(phase2, Phase::Finished { exit_code: 1 }));
    let phase = Phase::AwaitingRender { path: String::from("data/a.png") };
    let (phase2, action) = step(phase, Event::Rendered { ok: false });
    assert!(matches!(action, Action::Finish { exit_code: 1 }));
    assert!(matches!(phase2, Phase::Finished { exit_code: 1 }));
}

#[test]
fn whole_run_with_mocked_transport() {
    let mut renders: usize = 0;
    let (phase, action) = start_run(353);
    let url = match action {
        Action::FetchMetadata { url } => url,
        _ => panic!("the run must begin with the metadata fetch"),
    };
    assert_eq!(url, "https://xkcd.com/353/info.0.json");
    let body = String::from(
        "{\"month\": \"4\", \"num\": 353, \"link\": \"\", \"year\": \"2008\", \"news\": \"\", \
         \"safe_title\": \"Python\", \"transcript\": \"\", \"alt\": \"\", \
         \"img\": \"https://imgs.xkcd.com/comics/python.png\", \"title\": \"Python\", \
         \"day\": \"6\"}",
    );
    let (phase, action) = step(phase, Event::MetadataFetched { body: Some(body) });
    match &action {
        Action::DownloadImage { url, path } => {
            assert_eq!(url, "https://imgs.xkcd.com/comics/python.png");
            assert_eq!(path, "data/python.png");
        },
        _ => panic!("well-formed metadata must lead to the image download"),
    }
    let (phase, action) = step(phase, Event::ImageSaved { ok: true });
    match &action {
        Action::RenderImage { path } => {
            renders += 1;
            assert_eq!(path, "data/python.png");
        },
        _ => panic!("a saved image must be rendered"),
    }
    let (phase, action) = step(phase, Event::Rendered { ok: true });
    assert!(matches!(action, Action::Finish { exit_code: 0 }));
    assert!(matches!(phase, Phase::Finished { exit_code: 0 }));
    assert_eq!(renders, 1);
}

#[test]
fn drawing_plan_is_fixed() {
    let plan = render_plan();
    assert_eq!(plan.x, 5);
    assert_eq!(plan.y, 5);
    assert_eq!(plan.width, 80);
    assert_eq!(plan.height, 25);
}
