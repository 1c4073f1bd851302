pub mod asset_path;
pub mod asset_texture;
pub mod resource_pack_file;
pub mod shader;
pub mod sound;
pub mod texture;
pub mod unknowntexture;
pub mod pack_mcmeta;
pub mod atlas;
pub mod blockstate;
pub mod font;
pub mod model;
