use upscale::cli::{clean_target, model_dir_name, ModelChoice};
use upscale::download::{
    cache_dir, cache_dir_in, is_present, join_path, model_cache_dir, model_cache_dir_in,
    models_root_in, os_cache_from, part_path, plan_downloads, FileInfo,
};
use upscale::model::ModelId;
use upscale::transfer::{Outcome, Rejection, Stage, Transfer};

#[test]
fn paths_are_joined_with_one_separator() {
    assert_eq!(join_path(b"/a", b"b"), b"/a/b".to_vec());
    assert_eq!(join_path(b"/a/", b"b"), b"/a/b".to_vec());
    assert_eq!(join_path(b"", b"b"), b"b".to_vec());
    assert_eq!(join_path(b"/a", b"/b"), b"/b".to_vec());
    assert_eq!(join_path(b"/a", b""), b"/a/".to_vec());
}

#[test]
fn the_cache_base_falls_back_to_home_and_then_to_here() {
    let (cache, home) = (Some(b"/c".to_vec()), Some(b"/h".to_vec()));
    assert_eq!(os_cache_from(cache, home.clone()), b"/c".to_vec());
    assert_eq!(os_cache_from(None, home), b"/h/.cache".to_vec());
    assert_eq!(os_cache_from(None, None), b".cache".to_vec());
}

#[test]
fn models_lie_below_the_cache_root() {
    assert_eq!(cache_dir_in(b"/c"), b"/c/upscale".to_vec());
    assert_eq!(models_root_in(b"/c"), b"/c/upscale/models".to_vec());
    assert_eq!(model_cache_dir_in(b"/c", "vosr"), b"/c/upscale/models/vosr".to_vec());
}

/// The directories that the operating system reports.
fn base() -> Vec<u8> {
    let bytes = |p: Option<std::path::PathBuf>| p.map(|p| p.into_os_string().into_encoded_bytes());
    os_cache_from(bytes(dirs::cache_dir()), bytes(dirs::home_dir()))
}

#[test]
fn the_cache_of_this_machine() {
    assert_eq!(cache_dir(), cache_dir_in(&base()));
    assert_eq!(model_cache_dir("tvt"), model_cache_dir_in(&base(), "tvt"));
}

#[test]
fn cleaning_removes_one_model_or_everything() {
    assert_eq!(clean_target(None), cache_dir());
    assert_eq!(clean_target(Some(ModelChoice::Vosr)), model_cache_dir("vosr"));
}

#[test]
fn models_have_directories_of_their_own() {
    let names: Vec<&str> =
        [ModelId::Sdx4, ModelId::Vosr, ModelId::Tvt].into_iter().map(model_dir_name).collect();
    assert_eq!(names, vec!["sdx4", "vosr", "tvt"]);
}

#[test]
fn scratch_files_stand_beside_their_destinations() {
    assert_eq!(part_path(b"/w/a.safetensors"), b"/w/a.safetensors.part".to_vec());
    assert_ne!(part_path(b"/w/a"), part_path(b"/w/b"));
}

#[test]
fn only_a_file_with_content_is_present() {
    assert!(is_present(Some(FileInfo { is_file: true, len: 1 })));
    assert!(!is_present(Some(FileInfo { is_file: true, len: 0 })));
    assert!(!is_present(Some(FileInfo { is_file: false, len: 4096 })));
    assert!(!is_present(None));
}

#[test]
fn only_missing_files_are_fetched() {
    let files = ModelId::Vosr.manifest().unwrap();
    let plan = plan_downloads(b"/w", files, &[true, false, true, true, false]);
    assert_eq!(plan.len(), 2);
    assert_eq!(plan[0].url, files[1].url);
    assert_eq!(
        plan[0].dest,
        b"/w/stable-diffusion-2-1-base/vae/diffusion_pytorch_model.safetensors".to_vec()
    );
    assert_eq!(plan[1].dest, b"/w/VOSR_0.5B_ms/args.json".to_vec());
    assert_eq!(plan[1].part, b"/w/VOSR_0.5B_ms/args.json.part".to_vec());
    assert!(plan_downloads(b"/w", files, &[true; 5]).is_empty());
    assert_eq!(plan_downloads(b"/w", files, &[false; 5]).len(), 5);
}

#[test]
fn a_download_is_renamed_once_it_is_complete() {
    let mut t = Transfer::start(true);
    assert_eq!(t.stage, Stage::Parent);
    t.advance(Outcome::Done);
    assert_eq!(t.stage, Stage::Request);
    t.advance(Outcome::Response { status: 200, length: Some("12".to_string()) });
    assert_eq!((t.stage, t.total), (Stage::Create, Some(12)));
    t.advance(Outcome::Done);
    t.advance(Outcome::Read(5));
    assert_eq!(t.stage, Stage::Write(5));
    t.advance(Outcome::Done);
    assert_eq!((t.stage, t.received), (Stage::Read, 5));
    t.advance(Outcome::Read(7));
    t.advance(Outcome::Done);
    t.advance(Outcome::Read(0));
    assert_eq!((t.stage, t.received), (Stage::Flush, 12));
    t.advance(Outcome::Done);
    assert_eq!(t.stage, Stage::Rename);
    t.advance(Outcome::Done);
    assert_eq!(t.stage, Stage::Done);
    t.advance(Outcome::Failed);
    assert_eq!(t.stage, Stage::Done);
}

#[test]
fn an_error_page_is_never_written() {
    let mut t = Transfer::start(false);
    assert_eq!(t.stage, Stage::Request);
    t.advance(Outcome::Response { status: 204, length: None });
    assert_eq!(t.stage, Stage::Failed);
    assert_eq!(t.rejection.unwrap().message(), "server returned HTTP 204 (expected 200)");
    let mut t = Transfer::start(false);
    t.advance(Outcome::Refused { status: 404, reason: "Not Found".to_string() });
    assert_eq!(t.stage, Stage::Failed);
    assert!(matches!(t.rejection, Some(Rejection::Refused { status: 404, .. })));
    assert_eq!(t.rejection.unwrap().message(), "server returned HTTP 404 Not Found");
}

#[test]
fn an_interrupted_download_is_not_renamed() {
    let mut t = Transfer::start(false);
    t.advance(Outcome::Response { status: 200, length: Some("many".to_string()) });
    assert_eq!(t.total, None);
    t.advance(Outcome::Done);
    t.advance(Outcome::Read(3));
    t.advance(Outcome::Failed);
    assert_eq!(t.stage, Stage::Failed);
    t.advance(Outcome::Done);
    assert_eq!((t.stage, t.received), (Stage::Failed, 0));
}
