//! Choosing between the bootable images of a dual-image firmware layout.
//!
//! A system holds two images and boots the newer one that works. To be
//! considered, an image must have a valid checksum, must not be marked as
//! having failed to boot, and must have a boot attempt left, of four at most.
//! An attempt is charged each time an image is booted that has not yet marked
//! itself as having booted with success.
//!
//! Each image is followed in memory by a [`Footer`], one packed word that
//! records the image's checksum, version and length, four status flags and
//! the counter of attempts. The checksum comes first and stands right behind
//! the image, so that the image and its checksum run through the [`crc`] as
//! one block, which leaves no remainder where the image is intact. Every
//! change to a footer clears bits and never sets one, so the record can live
//! in flash, and a change that is cut short leaves it no better than it was.

pub mod bits;
pub mod crc;
pub mod footer;
pub mod image;

pub use footer::Footer;
pub use image::{select, Image, Memory};
