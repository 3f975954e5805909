# upscale

The decision logic of an image upscaler, verified with Verus, and two programs
around it: a command line and a page that runs in the browser.

Three models enlarge a picture four times: a latent-diffusion upscaler (`sdx4`), a
flow-matching upscaler (`vosr`) and a one-step upscaler (`tvt`). What a model
computes on a tile is floating point and is handed in as a function. Everything
around it is in the library: which tiles and windows there are, what each is given,
in which order results are threaded and blended, how buffers are laid out, which
layers a network consists of, which weights are fetched from where, and what the
command line and the page decide and say.

## Layout

`src/`, the library:

- `tiling`, `stitch`, `pixels`: tiles of a picture, their batches and their blend
- `grid`, `latent`: windows of a latent, and the runs over them
- `resize`, `whole`, `layout`, `noise`: resampling, derived buffers, seeds
- `scheduler`, `unet`, `vae`, `attention`, `device`: schedules, networks, kernels
- `model`, `manifest`, `download`, `transfer`, `weights`: models and their files
- `images`, `cli`: pictures before and after the model, and the command line
- `browser`, `session`: the page's downloads and its session
- `text`: numbers and messages

`app/`, the programs. They read and write, talk to the network and the browser, and
hold the tensor arithmetic. The page is built for `wasm32`. The prompt embeddings
(`empty_prompt_embed.safetensors` of `sdx4`, `tvt_prompt_embed.safetensors` of `tvt`)
are built into the programs from the directory that `UPSCALE_ASSETS` names: always
into the page, and with `--cfg prompts_built_in` into the command line, which else
looks for them beside the model's weights.

`tests/` runs the library.

## What is taken on trust

The contracts of a few calls are stated and not proved; each is documented where it
stands.

- `text`: appending a character to a `String`; the debug form of a string
- `download`: the user's cache and home directories (`dirs`)
- `weights`: parsing a tensor file and looking a tensor up (`safetensors`)
- `images`: cropping, resampling, dropping the alpha channel, and the format of a file
  extension (`image`)
