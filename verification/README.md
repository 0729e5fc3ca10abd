# palit_led

Control of the RGB LED on Palit GPUs through NvAPI I2C, with its logic proved in Verus.

- `src/` is the verified library: the LED protocol, the temperature zones, command-line
  parsing, GPU selection, and the byte layouts of the NvAPI calls.
- `app/` is the program around it: loading `nvapi64.dll` and making the raw calls, the
  TOML configuration file, Ctrl+C handling, the floating-point color mixing (HSV rainbow,
  smooth temperature blends), and the Windows tray (`tray::main`).
- `tests/` runs the library on concrete values.
