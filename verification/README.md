# Just-Tile

A tile server for Cloud Optimized GeoTIFFs (COGs) on Amazon S3 or any HTTP server. A request

```
GET /{z}/{x}/{y}?url={cog_url}[&aws_profile={profile}]
```

is answered with the 256x256 PNG tile of the Web Mercator grid, cut from the image at `cog_url`. An
object on S3 may be named by its bucket and key, as in

```
GET /{z}/{x}/{y}?url=s3://my-secret-bucket/data.tif&aws_profile=dev_bucket_admin
```

and is then requested from the S3 service of the region that the profile gives, or of `us-east-1`.

The library under `src/` is written in Verus: what each function returns, and what holds of several
of them together, is stated in contracts and proved.

| module        | what it holds                                                              |
| ------------- | -------------------------------------------------------------------------- |
| `geotiff`     | metadata from the tags of a GeoTIFF, and the grid of map tiles             |
| `projection`  | the projections of the image and of the tiles                              |
| `plan`        | the image directory and the chunks that a tile needs                       |
| `extract`     | putting chunks side by side and resampling them onto a tile                |
| `raster`      | grids of RGBA pixels, and their PNG files                                  |
| `http_reader` | reading a remote file in chunks of one mebibyte, by range requests         |
| `cache`       | what is known of the files that tiles were asked from                      |
| `s3_auth`     | the credentials for a request, and the headers that sign it                |
| `server`      | the steps that make a tile, the answers to requests, and the totals        |
| `text`        | decimal numbers and message text                                           |

The server under `app/` sends and receives, decodes TIFF files and computes with coordinates, which
are floating-point numbers. The library carries such a number as its bit pattern, and takes the
positions and mixtures that are computed from them as functions.

Functions of other crates that the library calls stand behind declarations whose contracts are taken
on trust; the comment above each says what it claims.

## Running

The server listens on `http://0.0.0.0:3000`. `/metrics` tells how many tiles were made, how many
requests failed, and how long loading, resampling and encoding took.

Requests go out unsigned if there are no AWS credentials. Otherwise they are signed with the
default credentials, or with those of a profile: the one that `aws_profile` names, or the one that
the JSON file named by `S3_ENDPOINT_MAPPING` gives for the host:

```json
{
  "internal-minio.acme.com": "minio_local",
  "s3.us-west-2.amazonaws.com": "default"
}
```
