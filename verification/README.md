# karton

Karton serves photo albums over HTTP. This crate holds its logic as a verified
library (`src/`), and the server program around it (`app/`).

- `src/text.rs` — decimal and hexadecimal rendering, trimming, splitting, joining.
- `src/path.rs` — Unix path text: join, final component, parent, extension.
- `src/youtil.rs` — uptime and byte-size formatting, content sniffing, directory listings.
- `src/album.rs`, `src/album_image.rs` — album index records read from image files, album file locations, the album zip archive, image sizes, scaling and JPEG encoding.
- `src/store.rs` — where the store keeps album indexes, scaled images and the admin secret.
- `src/auth.rs` — the admin secret.
- `src/cli.rs`, `src/server.rs`, `src/browser.rs` — settings and the server's decisions.
- `app/` — command line, file access, HTML pages and the HTTP server.
