//! The weight files of each model: where they are fetched from, where they land,
//! and which of them loading resolves.

use vstd::prelude::*;

use crate::download::join_path;
use crate::model::ModelId;

verus! {

/// One downloadable weight file.
#[derive(Clone, Copy, Debug)]
pub struct WeightFile {
    /// The `https://` URL that the file is fetched from.
    pub url: &'static str,
    /// The path relative to the model's weights directory where it lands: exactly
    /// the one that loading the model resolves.
    pub dest: &'static str,
}

/// URL and destination of every file of a model, in download order.
pub open spec fn manifest_of(id: ModelId) -> Seq<(Seq<char>, Seq<char>)> {
    match id {
        ModelId::Sdx4 => seq![
            (
                "https://huggingface.co/stabilityai/stable-diffusion-x4-upscaler/resolve/main/unet/diffusion_pytorch_model.safetensors"@,
                "unet.safetensors"@,
            ),
            (
                "https://huggingface.co/stabilityai/stable-diffusion-x4-upscaler/resolve/main/vae/diffusion_pytorch_model.safetensors"@,
                "vae.safetensors"@,
            ),
        ],
        ModelId::Vosr => seq![
            (
                "https://huggingface.co/CSWRY/VOSR/resolve/main/VOSR_0.5B_ms/checkpoints/ema_model.safetensors"@,
                "VOSR_0.5B_ms/checkpoints/ema_model.safetensors"@,
            ),
            (
                "https://huggingface.co/CSWRY/VOSR/resolve/main/stable-diffusion-2-1-base/vae/diffusion_pytorch_model.safetensors"@,
                "stable-diffusion-2-1-base/vae/diffusion_pytorch_model.safetensors"@,
            ),
            (
                "https://huggingface.co/CSWRY/VOSR/resolve/main/sd21_lwdecoder.pth"@,
                "sd21_lwdecoder.pth"@,
            ),
            (
                "https://huggingface.co/CSWRY/VOSR/resolve/main/torch_cache/checkpoints/dinov2_vitb14_pretrain.pth"@,
                "torch_cache/checkpoints/dinov2_vitb14_pretrain.pth"@,
            ),
            (
                "https://huggingface.co/CSWRY/VOSR/resolve/main/VOSR_0.5B_ms/args.json"@,
                "VOSR_0.5B_ms/args.json"@,
            ),
        ],
        ModelId::Tvt => seq![
            (
                "https://huggingface.co/romnnn/tvtsr-fused/resolve/main/fused_unet.safetensors"@,
                "ckp/fused_unet.safetensors"@,
            ),
            (
                "https://huggingface.co/romnnn/tvtsr-fused/resolve/main/vae.safetensors"@,
                "ckp/vae.safetensors"@,
            ),
        ],
    }
}

impl ModelId {
    /// The files that this model downloads on first run, or nothing for a model
    /// whose weights are not published.
    pub fn manifest(self) -> (files: Option<&'static [WeightFile]>)
        ensures
            files is Some,
            (files->0)@.len() == manifest_of(self).len(),
            forall|i: int|
                0 <= i < (files->0)@.len() ==> (#[trigger] (files->0)@[i]).url@ == manifest_of(
                    self,
                )[i].0 && (files->0)@[i].dest@ == manifest_of(self)[i].1,
    {
        match self {
            ModelId::Sdx4 => Some(
                &[
                    WeightFile {
                        url: "https://huggingface.co/stabilityai/stable-diffusion-x4-upscaler/resolve/main/unet/diffusion_pytorch_model.safetensors",
                        dest: "unet.safetensors",
                    },
                    WeightFile {
                        url: "https://huggingface.co/stabilityai/stable-diffusion-x4-upscaler/resolve/main/vae/diffusion_pytorch_model.safetensors",
                        dest: "vae.safetensors",
                    },
                ],
            ),
            ModelId::Vosr => Some(
                &[
                    WeightFile {
                        url: "https://huggingface.co/CSWRY/VOSR/resolve/main/VOSR_0.5B_ms/checkpoints/ema_model.safetensors",
                        dest: "VOSR_0.5B_ms/checkpoints/ema_model.safetensors",
                    },
                    WeightFile {
                        url: "https://huggingface.co/CSWRY/VOSR/resolve/main/stable-diffusion-2-1-base/vae/diffusion_pytorch_model.safetensors",
                        dest: "stable-diffusion-2-1-base/vae/diffusion_pytorch_model.safetensors",
                    },
                    WeightFile {
                        url: "https://huggingface.co/CSWRY/VOSR/resolve/main/sd21_lwdecoder.pth",
                        dest: "sd21_lwdecoder.pth",
                    },
                    WeightFile {
                        url: "https://huggingface.co/CSWRY/VOSR/resolve/main/torch_cache/checkpoints/dinov2_vitb14_pretrain.pth",
                        dest: "torch_cache/checkpoints/dinov2_vitb14_pretrain.pth",
                    },
                    WeightFile {
                        url: "https://huggingface.co/CSWRY/VOSR/resolve/main/VOSR_0.5B_ms/args.json",
                        dest: "VOSR_0.5B_ms/args.json",
                    },
                ],
            ),
            ModelId::Tvt => Some(
                &[
                    WeightFile {
                        url: "https://huggingface.co/romnnn/tvtsr-fused/resolve/main/fused_unet.safetensors",
                        dest: "ckp/fused_unet.safetensors",
                    },
                    WeightFile {
                        url: "https://huggingface.co/romnnn/tvtsr-fused/resolve/main/vae.safetensors",
                        dest: "ckp/vae.safetensors",
                    },
                ],
            ),
        }
    }
}

/// The weight files that loading a model reads, below its weights directory: the
/// denoiser, the autoencoder, then the others.
pub open spec fn weight_names(id: ModelId) -> Seq<&'static str> {
    match id {
        ModelId::Sdx4 => seq!["unet.safetensors", "vae.safetensors"],
        ModelId::Vosr => seq![
            "VOSR_0.5B_ms/checkpoints/ema_model.safetensors",
            "stable-diffusion-2-1-base/vae/diffusion_pytorch_model.safetensors",
            "sd21_lwdecoder.pth",
            "torch_cache/checkpoints/dinov2_vitb14_pretrain.pth",
        ],
        ModelId::Tvt => seq!["ckp/fused_unet.safetensors", "ckp/vae.safetensors"],
    }
}

/// The path of the `i`-th weight file: an explicit one for the denoiser or the
/// autoencoder, else the one below the weights directory.
pub open spec fn weight_path(
    id: ModelId,
    root: Seq<u8>,
    unet: Option<Seq<u8>>,
    vae: Option<Seq<u8>>,
    i: int,
) -> Seq<u8> {
    if i == 0 && unet is Some {
        unet->0
    } else if i == 1 && vae is Some {
        vae->0
    } else {
        crate::download::joined_path(root, crate::text::utf8(weight_names(id)[i]@))
    }
}

/// A path given explicitly, as bytes.
pub open spec fn given(path: Option<Vec<u8>>) -> Option<Seq<u8>> {
    match path {
        Some(p) => Some(p@),
        None => None,
    }
}

/// Resolves the weight files of a model, in the order of [`weight_names`]. Paths
/// are platform-encoded bytes.
pub fn weight_paths(
    id: ModelId,
    root: &[u8],
    unet: Option<Vec<u8>>,
    vae: Option<Vec<u8>>,
) -> (paths: Vec<Vec<u8>>)
    ensures
        paths@.len() == weight_names(id).len(),
        forall|i: int|
            0 <= i < paths@.len() ==> (#[trigger] paths@[i])@ == weight_path(
                id,
                root@,
                given(unet),
                given(vae),
                i,
            ),
{
    let (denoiser, autoencoder) = match id {
        ModelId::Sdx4 => ("unet.safetensors", "vae.safetensors"),
        ModelId::Vosr => (
            "VOSR_0.5B_ms/checkpoints/ema_model.safetensors",
            "stable-diffusion-2-1-base/vae/diffusion_pytorch_model.safetensors",
        ),
        ModelId::Tvt => ("ckp/fused_unet.safetensors", "ckp/vae.safetensors"),
    };
    let mut paths: Vec<Vec<u8>> = Vec::new();
    paths.push(
        match unet {
            Some(path) => path,
            None => join_path(root, denoiser.as_bytes()),
        },
    );
    paths.push(
        match vae {
            Some(path) => path,
            None => join_path(root, autoencoder.as_bytes()),
        },
    );
    match id {
        ModelId::Vosr => {
            paths.push(join_path(root, "sd21_lwdecoder.pth".as_bytes()));
            paths.push(
                join_path(root, "torch_cache/checkpoints/dinov2_vitb14_pretrain.pth".as_bytes()),
            );
        },
        ModelId::Sdx4 | ModelId::Tvt => {},
    }
    paths
}

/// A downloaded cache is a drop-in weights directory: every file that loading reads
/// is among the files that the model downloads.
pub proof fn law_cache_is_drop_in(id: ModelId, i: int)
    requires
        0 <= i < weight_names(id).len(),
    ensures
        exists|k: int|
            0 <= k < manifest_of(id).len() && #[trigger] manifest_of(id)[k].1 == weight_names(
                id,
            )[i]@,
{
    assert(manifest_of(id)[i].1 == weight_names(id)[i]@);
}

/// Every file is fetched from the place that its name says: below the model's page, at
/// the path where it lands, but for the x4 upscaler, whose parts are fetched from the
/// directory of the part, and the one-step model, whose files land in a directory of
/// their own.
pub proof fn law_files_come_from_their_places(id: ModelId, i: int)
    requires
        0 <= i < manifest_of(id).len(),
    ensures
        ({
            let (url, dest) = manifest_of(id)[i];
            &&& id is Vosr ==> url == "https://huggingface.co/CSWRY/VOSR/resolve/main/"@ + dest
            &&& id is Tvt ==> dest.take(4) == "ckp/"@ && url
                == "https://huggingface.co/romnnn/tvtsr-fused/resolve/main/"@ + dest.skip(4)
            &&& id is Sdx4 ==> {
                let stem = dest.take(dest.len() - 12);
                &&& dest == stem + ".safetensors"@
                &&& url
                    == "https://huggingface.co/stabilityai/stable-diffusion-x4-upscaler/resolve/main/"@
                    + stem + "/diffusion_pytorch_model.safetensors"@
            }
        }),
{
    let (url, dest) = manifest_of(id)[i];
    match id {
        ModelId::Sdx4 => {
            reveal_strlit(
                "https://huggingface.co/stabilityai/stable-diffusion-x4-upscaler/resolve/main/",
            );
            reveal_strlit("/diffusion_pytorch_model.safetensors");
            reveal_strlit(".safetensors");
            let stem = dest.take(dest.len() - 12);
            if i == 0 {
                reveal_strlit(
                    "https://huggingface.co/stabilityai/stable-diffusion-x4-upscaler/resolve/main/unet/diffusion_pytorch_model.safetensors",
                );
                reveal_strlit("unet.safetensors");
            } else {
                reveal_strlit(
                    "https://huggingface.co/stabilityai/stable-diffusion-x4-upscaler/resolve/main/vae/diffusion_pytorch_model.safetensors",
                );
                reveal_strlit("vae.safetensors");
            }
            assert(dest =~= stem + ".safetensors"@);
            assert(url
                =~= "https://huggingface.co/stabilityai/stable-diffusion-x4-upscaler/resolve/main/"@
                + stem + "/diffusion_pytorch_model.safetensors"@);
        },
        ModelId::Vosr => {
            reveal_strlit("https://huggingface.co/CSWRY/VOSR/resolve/main/");
            if i == 0 {
                reveal_strlit(
                    "https://huggingface.co/CSWRY/VOSR/resolve/main/VOSR_0.5B_ms/checkpoints/ema_model.safetensors",
                );
                reveal_strlit("VOSR_0.5B_ms/checkpoints/ema_model.safetensors");
            } else if i == 1 {
                reveal_strlit(
                    "https://huggingface.co/CSWRY/VOSR/resolve/main/stable-diffusion-2-1-base/vae/diffusion_pytorch_model.safetensors",
                );
                reveal_strlit("stable-diffusion-2-1-base/vae/diffusion_pytorch_model.safetensors");
            } else if i == 2 {
                reveal_strlit("https://huggingface.co/CSWRY/VOSR/resolve/main/sd21_lwdecoder.pth");
                reveal_strlit("sd21_lwdecoder.pth");
            } else if i == 3 {
                reveal_strlit(
                    "https://huggingface.co/CSWRY/VOSR/resolve/main/torch_cache/checkpoints/dinov2_vitb14_pretrain.pth",
                );
                reveal_strlit("torch_cache/checkpoints/dinov2_vitb14_pretrain.pth");
            } else {
                reveal_strlit("https://huggingface.co/CSWRY/VOSR/resolve/main/VOSR_0.5B_ms/args.json");
                reveal_strlit("VOSR_0.5B_ms/args.json");
            }
            assert(url =~= "https://huggingface.co/CSWRY/VOSR/resolve/main/"@ + dest);
        },
        ModelId::Tvt => {
            reveal_strlit("https://huggingface.co/romnnn/tvtsr-fused/resolve/main/");
            reveal_strlit("ckp/");
            if i == 0 {
                reveal_strlit(
                    "https://huggingface.co/romnnn/tvtsr-fused/resolve/main/fused_unet.safetensors",
                );
                reveal_strlit("ckp/fused_unet.safetensors");
            } else {
                reveal_strlit(
                    "https://huggingface.co/romnnn/tvtsr-fused/resolve/main/vae.safetensors",
                );
                reveal_strlit("ckp/vae.safetensors");
            }
            assert(dest.take(4) =~= "ckp/"@);
            assert(url =~= "https://huggingface.co/romnnn/tvtsr-fused/resolve/main/"@ + dest.skip(
                4,
            ));
        },
    }
}

/// The weight files are resolved in the order in which they are listed for download. A
/// path that was given stands for the denoiser or for the autoencoder alone; every other
/// file lies below the weights directory.
pub proof fn law_given_paths_replace_their_file(
    id: ModelId,
    root: Seq<u8>,
    unet: Option<Seq<u8>>,
    vae: Option<Seq<u8>>,
    i: int,
)
    requires
        0 <= i < weight_names(id).len(),
    ensures
        weight_names(id)[i]@ == manifest_of(id)[i].1,
        weight_names(id).len() >= 2,
        ({
            let own = crate::download::joined_path(
                root,
                crate::text::utf8(manifest_of(id)[i].1),
            );
            &&& weight_path(id, root, None, None, i) == own
            &&& i == 0 ==> weight_path(id, root, unet, vae, i) == match unet {
                Some(path) => path,
                None => own,
            }
            &&& i == 1 ==> weight_path(id, root, unet, vae, i) == match vae {
                Some(path) => path,
                None => own,
            }
            &&& i >= 2 ==> weight_path(id, root, unet, vae, i) == own
        }),
{
}

} // verus!
