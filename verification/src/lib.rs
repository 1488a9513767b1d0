mod data;
mod decomp;
mod entry;
mod errors;
mod footer;
mod index;
mod pak_file;
mod fstring;
mod reader;
mod versions;

pub use entry::PakCompressionBlock;
pub use entry::PakEntry;
pub use errors::PakError;
pub use errors::PakReaderError;
pub use footer::PakInfo;
pub use index::PakData;
pub use pak_file::PakFile;
pub use reader::PakReader;
pub use versions::PakVersionSizes;
