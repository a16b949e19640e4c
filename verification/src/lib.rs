//! Map tiles cut from Cloud Optimized GeoTIFFs that are read over HTTP.

pub mod cache;
pub mod extract;
pub mod geotiff;
pub mod http_reader;
pub mod plan;
pub mod projection;
pub mod raster;
pub mod s3_auth;
pub mod server;
pub mod text;
