# srf05-imu-station

Firmware for an SRF05 ultrasonic rangefinder and an MPU-6050 IMU on a
Raspberry Pi Pico W (RTIC v2), with its logic verified in Verus.

- `src/` — the verified library:
  - `srf05/` — pulse-width to distance conversion, interrupt edge capture,
    and the polling decisions of the blocking driver;
  - `median` — the fixed-window median filter, with the counting
    characterisation of the median and its laws;
  - `calibration` — gyro bias / accelerometer offset calibration;
  - `debouncer` — debouncing, click sequences and holds;
  - `ranging`, `station` — the firmware's echo capture and ranging step;
  - `flash_store`, `wire` — the stored calibration record and page-wise
    flash writes;
  - `imu` — MPU-6050 identity check and burst decoding;
  - `usb_log` — progress of a log write over USB serial.
- `app/` — the firmware around it: the RTIC application, the flash, I2C and
  USB drivers, and the embedded-hal pin wrappers.
- `tests/` — host tests of the library.
