# DeskCam

DeskCam streams a monitor as a webcam. On Windows 11 the camera is a Media Foundation virtual
camera, on Windows 10 a DirectShow capture filter. Either way the app publishes NV12 frames in a
shared section, and the camera hands the newest one to whoever is watching. The desktop is captured
only while someone is.

- `src/` is the library: everything the app and the two camera DLLs compute and decide, verified
  with [Verus](https://github.com/verus-lang/verus).
  - `layout`, `seqlock`, `section`: the shared frame ring, why its readers get whole frames, and
    how the section is opened.
  - `color`, `convert`: pixel formats and scaling.
  - `stream_info`, `config`, `paths`: the files.
  - `text`, `utf16`, `le`, `num`, `codes`, `os`: characters, bytes, numbers, codes and versions.
  - `com`, `dll`: registration and the exported functions of the DLLs.
  - `dshow`: the DirectShow filter, its pin and its delivery.
  - `source`: the Media Foundation source, its stream and its samples.
  - `monitor`, `capture`, `backend`, `vcam`, `worker`, `tray`: the app.
- `tests/` runs the library on concrete values.
- `app/` is what talks to Windows: the program, the GPU capture, the COM objects. It asks the
  library what to do and does it.

Times are milliseconds since boot where processes compare them, and nanoseconds of a monotonic clock
where frames are paced. Objects of Windows appear in the library as numbers that stand for them.
