//! Markers for the places in the configuration tree that a view can be at.
#![allow(non_camel_case_types)]
use vstd::prelude::*;

verus! {

/// The whole configuration.
#[derive(Debug, Clone, Copy)]
pub struct Root;

/// `name`
#[derive(Debug, Clone, Copy)]
pub struct Root_Name;

/// `leds`
#[derive(Debug, Clone, Copy)]
pub struct Root_Leds;

/// `leds.brightness`
#[derive(Debug, Clone, Copy)]
pub struct Root_Leds_Brightness;

/// `network`
#[derive(Debug, Clone, Copy)]
pub struct Root_Network;

/// `network.hostname`
#[derive(Debug, Clone, Copy)]
pub struct Root_Network_Hostname;

/// `network.password`
#[derive(Debug, Clone, Copy)]
pub struct Root_Network_Password;

/// `network.home`
#[derive(Debug, Clone, Copy)]
pub struct Root_Network_Home;

/// `network.home.ssid`
#[derive(Debug, Clone, Copy)]
pub struct Root_Network_Home_Ssid;

/// `network.home.password`
#[derive(Debug, Clone, Copy)]
pub struct Root_Network_Home_Password;

} // verus!
