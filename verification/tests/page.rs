use upscale::browser::{
    begin_upscale, js_error_text, FetchEvent, FetchStage, ImageBuf, ModelFetch, ModelStatus,
    Upscale, UpscaleOptions,
};
use upscale::session::{Failure, Figures, ModelPart, Need, Session, Status};

const MODEL: [u8; 10] = [2, 0, 0, 0, 0, 0, 0, 0, b'{', b'}'];

fn response(length: Option<&str>) -> FetchEvent {
    FetchEvent::Response { ok: true, status: 200, length: length.map(str::to_string) }
}

#[test]
fn a_good_cache_entry_is_served() {
    let (mut fetch, status) = ModelFetch::start("/m/unet");
    assert_eq!(status, ModelStatus::CheckingCache);
    fetch.advance(FetchEvent::Done);
    assert_eq!(fetch.stage, FetchStage::Match);
    fetch.advance(FetchEvent::Found);
    assert_eq!(fetch.stage, FetchStage::ReadCached);
    let notice = fetch.advance(FetchEvent::Cached(MODEL.to_vec()));
    assert_eq!(notice.status, Some(ModelStatus::Ready));
    assert_eq!(fetch.stage, FetchStage::Finished);
    assert_eq!(fetch.bytes, MODEL.to_vec());
}

#[test]
fn a_poisoned_cache_entry_is_replaced() {
    let (mut fetch, _) = ModelFetch::start("/m/unet");
    fetch.advance(FetchEvent::Done);
    fetch.advance(FetchEvent::Found);
    let notice = fetch.advance(FetchEvent::Cached(b"<html>".to_vec()));
    assert_eq!(
        notice.warning.unwrap(),
        "evicting stale cache entry for /m/unet: not a safetensors file (6 bytes, starts with \"<html>\")"
    );
    assert_eq!(fetch.stage, FetchStage::Evict);
    fetch.advance(FetchEvent::Failed("gone".to_string()));
    assert_eq!(fetch.stage, FetchStage::Request);
    assert!(fetch.bytes.is_empty());
}

#[test]
fn a_download_is_reported_and_cached() {
    let (mut fetch, _) = ModelFetch::start("/m/vae");
    fetch.advance(FetchEvent::Done);
    fetch.advance(FetchEvent::Missing);
    assert_eq!(fetch.stage, FetchStage::Request);
    let notice = fetch.advance(response(Some("10")));
    assert_eq!(
        notice.status,
        Some(ModelStatus::Downloading { received: 0, total: Some(10) })
    );
    let notice = fetch.advance(FetchEvent::Chunk(MODEL[..4].to_vec()));
    assert_eq!(
        notice.status,
        Some(ModelStatus::Downloading { received: 4, total: Some(10) })
    );
    fetch.advance(FetchEvent::Chunk(MODEL[4..].to_vec()));
    let notice = fetch.advance(FetchEvent::End);
    assert_eq!(notice.status, Some(ModelStatus::Saving));
    assert_eq!(fetch.stage, FetchStage::Put);
    let notice = fetch.advance(FetchEvent::Done);
    assert_eq!(notice.status, Some(ModelStatus::Ready));
    assert_eq!(fetch.bytes, MODEL.to_vec());
}

#[test]
fn failing_to_cache_is_harmless() {
    let (mut fetch, _) = ModelFetch::start("/m/vae");
    fetch.advance(FetchEvent::Done);
    fetch.advance(FetchEvent::Missing);
    let notice = fetch.advance(response(None));
    assert_eq!(notice.status, Some(ModelStatus::Downloading { received: 0, total: None }));
    fetch.advance(FetchEvent::Chunk(MODEL.to_vec()));
    fetch.advance(FetchEvent::End);
    let notice = fetch.advance(FetchEvent::Failed("quota".to_string()));
    assert_eq!(
        notice.warning.unwrap(),
        "cache.put failed for /m/vae (continuing without caching): quota"
    );
    assert_eq!(notice.status, Some(ModelStatus::Ready));
    assert_eq!(fetch.stage, FetchStage::Finished);
}

#[test]
fn what_is_not_a_model_is_refused() {
    let (mut fetch, _) = ModelFetch::start("/m/vae");
    fetch.advance(FetchEvent::Done);
    fetch.advance(FetchEvent::Missing);
    fetch.advance(FetchEvent::Response { ok: false, status: 503, length: None });
    assert_eq!(fetch.stage, FetchStage::Failed);
    assert_eq!(fetch.error, "failed to download model: HTTP 503 (/m/vae)");
    let (mut fetch, _) = ModelFetch::start("/m/vae");
    fetch.advance(FetchEvent::Done);
    fetch.advance(FetchEvent::Missing);
    fetch.advance(response(None));
    fetch.advance(FetchEvent::Chunk(b"listing".to_vec()));
    fetch.advance(FetchEvent::End);
    assert_eq!(
        fetch.error,
        "/m/vae did not return a safetensors file (7 bytes, starts with \"listing\") — check the model server is serving the real weights at this URL"
    );
    let (mut fetch, _) = ModelFetch::start("/m/vae");
    fetch.advance(FetchEvent::Failed("no cache".to_string()));
    assert_eq!((fetch.stage, fetch.error.as_str()), (FetchStage::Failed, "no cache"));
}

#[test]
fn errors_of_the_browser_are_put_into_words() {
    let text = |s: &str| Some(s.to_string());
    assert_eq!(js_error_text(text("a"), text("b")), "a");
    assert_eq!(js_error_text(None, text("b")), "b");
    assert_eq!(js_error_text(None, None), "unknown JS error");
}

#[test]
fn an_upscale_begins() {
    let rgba = vec![9u8; 10 * 6 * 4];
    let options = UpscaleOptions::default();
    assert_eq!(
        (options.steps, options.noise_level, options.tile, options.overlap),
        (20, 20, 128, 16)
    );
    let sample = |b: u8| u32::from(b);
    let begin = |rgba: &[u8], full: bool| {
        let tell = |told: usize, _: usize, total: usize| {
            assert_eq!(total, 24);
            told + 1
        };
        let (begun, told) = begin_upscale(rgba, 10, 6, &options, full, 0u32, 0, &sample, &tell);
        assert_eq!(told, if full { 0 } else { 24 });
        begun
    };
    match begin(&rgba, false) {
        Ok(Upscale::Repeated((out, w, h))) => {
            assert_eq!((out.len(), w, h), (40 * 24 * 4, 40, 24));
            assert!(out.iter().all(|&b| b == 9));
        }
        _ => panic!("not repeated"),
    }
    match begin(&rgba, true) {
        Ok(Upscale::Tiled(run, planes)) => {
            assert_eq!(planes, vec![9; 180]);
            assert_eq!(run.tile_size(), (6, 10));
            assert_eq!(run.progress().0, 0);
        }
        _ => panic!("not tiled"),
    }
    match begin(&rgba[1..], true) {
        Err(text) => assert_eq!(text, "rgba len 239 != 10x6x4"),
        Ok(_) => panic!("accepted"),
    }
}

fn buf() -> ImageBuf {
    ImageBuf { rgba: vec![0; 24], width: 3, height: 2, data_url: String::new() }
}

fn line(session: &Session) -> String {
    let figures = Figures {
        received: "1.5".to_string(),
        total: "3.0".to_string(),
        percent: "50".to_string(),
    };
    session.status_line(&figures, "42")
}

#[test]
fn a_session_runs_a_job() {
    let mut s = Session::new();
    assert_eq!((s.steps, s.noise_level, s.base_url.as_str()), (20, 20, "/models"));
    assert!(!s.can_upscale());
    assert!(s.upscale_pressed().is_none());
    assert_eq!(s.drop_hint(), "Drop an image here, or click to choose a file.");
    s.file_chosen();
    s.decoded(Ok(buf()));
    assert!(s.can_upscale());
    assert_eq!(s.drop_hint(), "Drop a new image here or click to replace it.");
    assert_eq!(s.button_text(), "Upscale 4x");
    let job = s.upscale_pressed().unwrap();
    assert_eq!(job.unet_url, "/models/unet.safetensors");
    assert_eq!(job.vae_url, "/models/vae.safetensors");
    assert_eq!((job.options.steps, job.options.noise_level, job.half), (20, 20, false));
    assert_eq!(line(&s), "Initializing WebGPU device...");
    assert!(s.upscale_pressed().is_none());
    assert_eq!(s.button_text(), "Upscaling...");
    assert_eq!(s.next_need(), Need::Fetch(ModelPart::Unet));
    s.fetching(ModelPart::Unet, ModelStatus::CheckingCache);
    assert_eq!(line(&s), "Checking local cache for UNet...");
    s.fetched(ModelPart::Unet);
    assert_eq!(s.next_need(), Need::Fetch(ModelPart::Vae));
    s.fetched(ModelPart::Vae);
    assert_eq!(s.next_need(), Need::Build);
    assert_eq!(line(&s), "Building pipeline from downloaded weights...");
    s.built();
    assert_eq!(s.next_need(), Need::Run);
    assert_eq!(line(&s), "Upscaling... 42%");
    s.finished(buf());
    assert_eq!(line(&s), "Done.");
    assert!(s.result.is_some() && s.can_upscale());
    // The parts are kept for the next job.
    s.upscale_pressed().unwrap();
    assert!(s.result.is_none());
    assert_eq!(s.next_need(), Need::Run);
}

#[test]
fn another_precision_is_loaded_anew() {
    let mut s = Session::new();
    s.decoded(Ok(buf()));
    s.upscale_pressed().unwrap();
    s.fetched(ModelPart::Unet);
    s.fetched(ModelPart::Vae);
    s.built();
    s.finished(buf());
    s.fp16 = true;
    let job = s.upscale_pressed().unwrap();
    assert_eq!(job.unet_url, "/models/unet.fp16.safetensors");
    assert_eq!(job.vae_url, "/models/vae.fp16.safetensors");
    assert_eq!(s.next_need(), Need::Fetch(ModelPart::Unet));
}

#[test]
fn failures_end_the_job() {
    let cases = [
        (Failure::Gpu, "Error: WebGPU init failed: x"),
        (Failure::Fetch(ModelPart::Unet), "Error: UNet download failed: x"),
        (Failure::Fetch(ModelPart::Vae), "Error: VAE download failed: x"),
        (Failure::Build, "Error: failed to build pipeline: x"),
        (Failure::Run, "Error: upscale failed: x"),
        (Failure::Encode, "Error: failed to encode result: x"),
    ];
    for (failure, want) in cases {
        let mut s = Session::new();
        s.decoded(Ok(buf()));
        s.upscale_pressed().unwrap();
        s.failed(failure, "x");
        assert_eq!(line(&s), want);
        assert!(s.is_error() && s.can_upscale());
        assert_eq!(s.status_class(), "status-line notice error");
    }
    let mut s = Session::new();
    s.decoded(Err("bad".to_string()));
    assert_eq!(line(&s), "Error: failed to decode image: bad");
    assert!(!s.can_upscale());
}

#[test]
fn status_lines() {
    let mut s = Session::new();
    assert_eq!(line(&s), "");
    assert_eq!(s.status_class(), "status-line");
    let down = |total: Option<u64>| ModelStatus::Downloading { received: 1, total };
    s.fetching(ModelPart::Unet, down(Some(2)));
    assert_eq!(line(&s), "Downloading UNet... 1.5 / 3.0 MB (50%)");
    s.fetching(ModelPart::Vae, down(Some(0)));
    assert_eq!(line(&s), "Downloading VAE... 1.5 MB");
    s.fetching(ModelPart::Vae, down(None));
    assert_eq!(line(&s), "Downloading VAE... 1.5 MB");
    s.fetching(ModelPart::Vae, ModelStatus::Saving);
    assert_eq!(line(&s), "Saving VAE to browser cache...");
    s.fetching(ModelPart::Unet, ModelStatus::Ready);
    assert_eq!(line(&s), "UNet loaded from cache.");
    assert!(matches!(s.status, Status::LoadingModel(ModelPart::Unet, ModelStatus::Ready)));
}

#[test]
fn sliders_and_dragging() {
    let mut s = Session::new();
    s.steps_entered("35");
    s.noise_entered("-7");
    assert_eq!((s.steps, s.noise_level), (35, -7));
    s.steps_entered("4294967296");
    s.steps_entered("-1");
    s.noise_entered("");
    assert_eq!((s.steps, s.noise_level), (35, -7));
    assert_eq!(s.drop_class(), "dropzone");
    s.dragged(true);
    assert_eq!(s.drop_class(), "dropzone dragover");
    s.dragged(false);
    assert_eq!(s.drop_class(), "dropzone");
    assert_eq!(buf().size_text(), "3 x 2");
}
