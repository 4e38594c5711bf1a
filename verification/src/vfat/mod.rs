pub mod cluster;
pub mod ebpb;
pub mod error;
pub mod fat;
pub mod vfat;

pub use self::cluster::Cluster;
pub use self::ebpb::BiosParameterBlock;
pub use self::error::Error;
pub use self::fat::{FatEntry, Status};
pub use self::vfat::{chain_step, ChainStep, VFat};
