# btwin

Bluetooth on Windows, with its logic verified by Verus.

- `src/utils.rs`: UTF-16 ("wide") strings as the Windows API reads and
  writes them, with their round-trip laws.
- `src/winapi.rs`: Win32 errors, device records, radios, the parameters of
  the device search and of the selection dialog, and the decisions of a
  find-first / find-next enumeration.
- `src/btwinapi.rs`: the errors of the first form of the bindings.
- `src/scan.rs`: a Bluetooth LE scan for one device (btleplug addresses,
  event lines, when the target counts as found, characteristic reports).
- `app/`: the program that makes the Win32, WinRT and btleplug calls
  (Windows only) and hands their answers to the library.
