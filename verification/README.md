# local_video_stream

The logic of a small local video streaming server, verified with Verus.

- `src/` is the verified library: splitting file names, the cache of
  converted files, the case-insensitive stable sort of folder listings,
  choosing the file that answers a request, cutting byte-range chunks and
  their headers, and following the progress that the converter prints.
- `app/` is the HTTP server around it: routes, folder and file I/O, the
  converter process and the event stream.
- `tests/` runs the library on concrete values.
