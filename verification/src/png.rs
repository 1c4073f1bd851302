pub mod crc;
