//! SoundTransfer: the sound of one machine, played on another in the same local network.
//!
//! A sender captures what a machine plays, cuts it into packets and sends them; a receiver drops
//! those that come late, makes up for lost ones, evens out the network's jitter and the drift of
//! the two clocks, and plays the sound. This crate holds what the program decides on whole numbers
//! and text, with its contracts proved. Sockets, sound cards, files, drawing the window and all
//! floating point, such as scaling samples and measuring drift, are left to the program around it.
//!
//! On the wire: [`protocol`] is the packet header, [`convert`] the samples behind it, [`le`] the
//! little-endian numbers of both. A stream: [`capture`] and [`sender`] on one side; [`receiver`],
//! [`jitter`] and [`playout`] on the other; [`ring`] is the queue of samples that both use.
//! Around it: [`discovery`] finds receivers, [`control`] answers remote control, [`update`] and
//! [`archive`] replace the program by a newer one, [`stats`] counts, [`gui`] and [`cli`] are what
//! the user sees. [`text`] is what all of these need of strings.

pub mod archive;
pub mod capture;
pub mod cli;
pub mod control;
pub mod convert;
pub mod discovery;
pub mod gui;
pub mod jitter;
pub mod le;
pub mod playout;
pub mod protocol;
pub mod receiver;
pub mod ring;
pub mod sender;
pub mod stats;
pub mod text;
pub mod update;
