//! Command numbers. Getters and their matching setters are paired by name.

use vstd::prelude::*;

verus! {

pub const BATTERY_CHARGING: u8 = 17;
pub const BATTERY_PERCENT: u8 = 18;
pub const ONLINE: u8 = 19;
pub const FIRMWARE: u8 = 21;
pub const PROFILE: u8 = 16;
pub const ACTIVE_DPI_STAGE: u8 = 28;
pub const DPI_STAGE_COUNT: u8 = 30;
pub const DPI: u8 = 4;
pub const POLLING_RATE: u8 = 6;
pub const LIFT_OFF: u8 = 8;
pub const ANGLE_TUNING: u8 = 10;
pub const MOTION_SYNC: u8 = 14;
pub const SYSTEM_MODE: u8 = 12;
pub const HYPER_CLICK: u8 = 23;
pub const SLAM_CLICK: u8 = 42;
pub const OPTICAL_ENGINE: u8 = 50;
pub const SLEEP_MINUTES: u8 = 25;
pub const LIGHTING_MODE: u8 = 32;
pub const LIGHTING_COLOR: u8 = 34;
pub const LIGHTING_STATE: u8 = 38;
pub const LIGHTING_SPEED: u8 = 40;
pub const LIGHTING_BRIGHTNESS: u8 = 48;
pub const PAIRED_PRODUCT_ID: u8 = 167;

pub const SET_DPI: u8 = 3;
pub const SET_ACTIVE_DPI_STAGE: u8 = 27;
pub const SET_DPI_STAGE_COUNT: u8 = 29;
pub const SET_POLLING_RATE: u8 = 5;
pub const SET_LIFT_OFF: u8 = 7;
pub const SET_ANGLE_TUNING: u8 = 9;
pub const SET_MOTION_SYNC: u8 = 13;
pub const SET_SYSTEM_MODE: u8 = 11;
pub const SET_HYPER_CLICK: u8 = 22;
pub const SET_SLAM_CLICK: u8 = 41;
pub const SET_OPTICAL_ENGINE: u8 = 49;
pub const SET_SLEEP_MINUTES: u8 = 24;
pub const SET_LIGHTING_MODE: u8 = 31;
pub const SET_LIGHTING_COLOR: u8 = 33;
pub const SET_LIGHTING_STATE: u8 = 37;
pub const SET_LIGHTING_SPEED: u8 = 39;
pub const SET_LIGHTING_BRIGHTNESS: u8 = 47;

} // verus!
